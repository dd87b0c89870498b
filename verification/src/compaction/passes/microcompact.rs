//! Microcompact pass: turn-based, count-driven clearing of old tool results.
//!
//! Runs when enough compactable tool results accumulate. Among the results
//! before the last two assistant turns, the newest are kept in full, the
//! next are reduced to metadata, and the oldest are cleared; the inputs of
//! the calls whose results were cleared are shortened, and old images are
//! replaced by notes.

use vstd::prelude::*;
use crate::compaction::config::CompactionConfig;
use crate::compaction::metadata::{metadata_text, text_parts, to_metadata};
use crate::compaction::pass::{Pass, PassContext, PassLevel, PassResult};
use crate::compaction::policy::{ALREADY_COMPACTED_THRESHOLD, is_compactable_tool, is_compactable_tool_result};
use crate::compaction::pressure::{text_bytes, text_len};
use crate::compaction::types::{ActionV, CompactionAction, CompactionMethod, av, single_action};
use crate::json::{json_quoted, quote};
use crate::text::{chars_of, join, owned, push_str, string_of, strs, take_vec};
use crate::sanitize::contains_string;
use crate::tokens::{content_tokens, ctoks};
use crate::types::{AgentMessage, AgentMessageV, Content, ContentV, ImageSource, ImageSourceV, Message, MessageV, clone_content, cv, is_assistant, mv};
use super::shrink::pass::{act, opt_seq};
use super::shrink::strategy::{has_image, has_image_block};

verus! {

/// Longest tool input, in characters, kept for a call whose result was cleared.
pub const MAX_TOOL_USE_INPUT_CHARS: usize = 200;

/// Scanning down from index `i`: the index of the `keep`-th assistant
/// message from the end, or the length when there are fewer.
pub open spec fn boundary_from(ms: Seq<AgentMessageV>, i: int, seen: int, keep: int) -> int
    decreases i,
{
    if i <= 0 {
        ms.len() as int
    } else if is_assistant(ms[i - 1]) && seen + 1 >= keep {
        i - 1
    } else {
        boundary_from(ms, i - 1, if is_assistant(ms[i - 1]) { seen + 1 } else { seen }, keep)
    }
}

/// Where the last `keep` assistant turns start; the length when there are
/// fewer turns (everything is protected).
pub open spec fn turn_boundary(ms: Seq<AgentMessageV>, keep: int) -> int {
    boundary_from(ms, ms.len() as int, 0, keep)
}

proof fn lemma_boundary_range(ms: Seq<AgentMessageV>, i: int, seen: int, keep: int)
    requires
        0 <= i <= ms.len(),
    ensures
        0 <= boundary_from(ms, i, seen, keep) <= ms.len(),
    decreases i,
{
    if i > 0 && !(is_assistant(ms[i - 1]) && seen + 1 >= keep) {
        lemma_boundary_range(ms, i - 1, if is_assistant(ms[i - 1]) { seen + 1 } else { seen }, keep);
    }
}

fn find_turn_boundary(messages: &[AgentMessage], keep_turns: usize) -> (r: usize)
    ensures
        r == turn_boundary(mv(messages@), keep_turns as int),
{
    let ghost ms = mv(messages@);
    let mut seen: usize = 0;
    let mut i = messages.len();
    while i > 0
        invariant
            i <= messages@.len(),
            seen <= messages@.len() - i,
            ms == mv(messages@),
            turn_boundary(ms, keep_turns as int) == boundary_from(ms, i as int, seen as int, keep_turns as int),
        decreases i,
    {
        proof {
            assert(ms[i - 1] == messages@[i - 1]@);
        }
        if let AgentMessage::Llm(Message::Assistant { .. }) = &messages[i - 1] {
            seen = seen + 1;
            if seen >= keep_turns {
                return i - 1;
            }
        }
        i = i - 1;
    }
    messages.len()
}

/// A result of a compactable tool that still holds its text.
pub open spec fn compactable(m: AgentMessageV) -> bool {
    match m {
        AgentMessageV::Llm(MessageV::ToolResult { tool_name, content, .. }) => is_compactable_tool(tool_name)
            && text_bytes(content) >= ALREADY_COMPACTED_THRESHOLD,
        _ => false,
    }
}

fn is_compactable_and_not_cleared(msg: &AgentMessage) -> (r: bool)
    ensures
        r == compactable(msg@),
{
    if let AgentMessage::Llm(Message::ToolResult { tool_name, content, .. }) = msg {
        let n = text_len(content.as_slice());
        is_compactable_tool_result(tool_name.as_str(), n)
    } else {
        false
    }
}

/// The indices below `b` holding compactable results, in order.
pub open spec fn comp_idx(ms: Seq<AgentMessageV>, b: int) -> Seq<int>
    decreases b,
{
    if b <= 0 {
        Seq::empty()
    } else {
        comp_idx(ms, b - 1) + if compactable(ms[b - 1]) {
            seq![b - 1]
        } else {
            Seq::empty()
        }
    }
}

/// A user message with an image.
pub open spec fn user_image(m: AgentMessageV) -> bool {
    match m {
        AgentMessageV::Llm(MessageV::User { content, .. }) => has_image(content),
        _ => false,
    }
}

/// The indices below `b` holding user messages with images, in order.
pub open spec fn img_idx(ms: Seq<AgentMessageV>, b: int) -> Seq<int>
    decreases b,
{
    if b <= 0 {
        Seq::empty()
    } else {
        img_idx(ms, b - 1) + if user_image(ms[b - 1]) {
            seq![b - 1]
        } else {
            Seq::empty()
        }
    }
}

pub open spec fn min_int(a: int, b: int) -> int {
    if a < b {
        a
    } else {
        b
    }
}

/// How the compactable results are split: the boundary, their number, how
/// many are kept in full and how many reduced to metadata.
pub open spec fn tiers(ms: Seq<AgentMessageV>, c: CompactionConfig) -> (int, int, int, int) {
    let b = turn_boundary(ms, 2);
    let total = comp_idx(ms, b).len() as int;
    let kf = min_int(c.microcompact_keep_full as int, total);
    let km = min_int(c.microcompact_keep_meta as int, total - kf);
    (b, total, kf, km)
}

/// The replacement and action for result `i`: the `rank` newest below `kf`
/// stay; the next `km` become metadata; older ones become `[cleared]`; a
/// replacement that saves nothing is not made.
pub open spec fn tool_step(ms: Seq<AgentMessageV>, i: int, b: int, total: int, kf: int, km: int) -> Option<(Seq<ContentV>, ActionV)> {
    if i < b && compactable(ms[i]) {
        let rank = total - 1 - comp_idx(ms, i).len();
        match ms[i] {
            AgentMessageV::Llm(MessageV::ToolResult { tool_name, content, .. }) => if rank < kf {
                None
            } else {
                let r = if rank < kf + km {
                    seq![ContentV::Text { text: metadata_text(tool_name, ms, i, join(text_parts(content), "\n"@)) }]
                } else {
                    seq![ContentV::Text { text: "[cleared]"@ }]
                };
                let before = ctoks(content);
                let after = ctoks(r);
                if after >= before {
                    None
                } else {
                    Some((r, act(i, tool_name, CompactionMethod::AgeCleared, before, after)))
                }
            },
            _ => None,
        }
    } else {
        None
    }
}

/// The note that replaces an image: its file when known.
pub open spec fn image_note(source: ImageSourceV) -> Seq<char> {
    let hint = match source {
        ImageSourceV::Path { path } => path,
        ImageSourceV::Base64 { path, .. } => match path {
            Some(p) => p,
            None => Seq::empty(),
        },
    };
    if hint.len() == 0 {
        "[image]"@
    } else {
        "[image: "@ + hint + "]"@
    }
}

pub open spec fn note_image(b: ContentV) -> ContentV {
    match b {
        ContentV::Image { source } => ContentV::Text { text: image_note(source) },
        _ => b,
    }
}

pub open spec fn note_images(c: Seq<ContentV>) -> Seq<ContentV> {
    c.map_values(|b: ContentV| note_image(b))
}

/// The replacement and action for user message `i`: images of all but the
/// `keep` newest image messages before the boundary become notes.
pub open spec fn img_step(ms: Seq<AgentMessageV>, i: int, b: int, keep: int) -> Option<(Seq<ContentV>, ActionV)> {
    if i < b && user_image(ms[i]) {
        let rank = img_idx(ms, b).len() - 1 - img_idx(ms, i).len();
        match ms[i] {
            AgentMessageV::Llm(MessageV::User { content, .. }) => if rank < keep {
                None
            } else {
                let r = note_images(content);
                let before = ctoks(content);
                let after = ctoks(r);
                if after >= before {
                    None
                } else {
                    Some((r, act(i, "user"@, CompactionMethod::ImageStripped, before, after)))
                }
            },
            _ => None,
        }
    } else {
        None
    }
}

/// The call ids of the compactable results below `k` whose position among
/// them is below `limit`.
pub open spec fn cleared_ids(ms: Seq<AgentMessageV>, k: int, limit: int) -> Seq<Seq<char>>
    decreases k,
{
    if k <= 0 {
        Seq::empty()
    } else {
        cleared_ids(ms, k - 1, limit) + match ms[k - 1] {
            AgentMessageV::Llm(MessageV::ToolResult { tool_call_id, .. }) => if compactable(ms[k - 1]) && comp_idx(
                ms,
                k - 1,
            ).len() < limit {
                seq![tool_call_id]
            } else {
                Seq::empty()
            },
            _ => Seq::empty(),
        }
    }
}

/// A tool input longer than `max` characters, cut to `max` and marked.
pub open spec fn truncated_input(s: Seq<char>, max: int) -> Option<Seq<char>> {
    if s.len() <= max {
        None
    } else {
        Some(s.take(max) + "...[truncated]"@)
    }
}

/// Cuts a tool input to `max_chars` characters, marking the cut; `None`
/// when it already fits.
pub fn truncate_tool_use_input(input: String, max_chars: usize) -> (r: Option<String>)
    ensures
        match r {
            Some(s) => truncated_input(input@, max_chars as int) == Some(s@),
            None => truncated_input(input@, max_chars as int) is None,
        },
{
    let v = chars_of(input.as_str());
    if v.len() <= max_chars {
        return None;
    }
    let head = take_vec(&v, max_chars);
    let mut s = string_of(&head);
    push_str(&mut s, "...[truncated]");
    Some(s)
}

/// The JSON object that replaces a cut tool input.
pub open spec fn truncated_object(t: Seq<char>) -> Seq<char> {
    "{\"_truncated\":"@ + json_quoted(t) + "}"@
}

/// A call whose result was cleared keeps a cut of its input.
pub open spec fn trim_call(b: ContentV, cleared: Seq<Seq<char>>) -> ContentV {
    match b {
        ContentV::ToolCall { id, name, arguments } => if cleared.contains(id) && truncated_input(
            arguments,
            MAX_TOOL_USE_INPUT_CHARS as int,
        ) is Some {
            ContentV::ToolCall {
                id,
                name,
                arguments: truncated_object(truncated_input(arguments, MAX_TOOL_USE_INPUT_CHARS as int)->0),
            }
        } else {
            b
        },
        _ => b,
    }
}

pub open spec fn trim_calls(c: Seq<ContentV>, cleared: Seq<Seq<char>>) -> Seq<ContentV> {
    c.map_values(|b: ContentV| trim_call(b, cleared))
}

/// What message `i` becomes.
pub open spec fn micro_msg(ms: Seq<AgentMessageV>, i: int, c: CompactionConfig) -> AgentMessageV {
    let (b, total, kf, km) = tiers(ms, c);
    match ms[i] {
        AgentMessageV::Llm(MessageV::ToolResult { tool_call_id, tool_name, content, is_error, timestamp, retention }) => {
            match tool_step(ms, i, b, total, kf, km) {
                Some(s) => AgentMessageV::Llm(
                    MessageV::ToolResult { tool_call_id, tool_name, content: s.0, is_error, timestamp, retention },
                ),
                None => ms[i],
            }
        },
        AgentMessageV::Llm(
            MessageV::Assistant { content, stop_reason, model, provider, usage, timestamp, error_message, response_id },
        ) => AgentMessageV::Llm(
            MessageV::Assistant {
                content: trim_calls(content, cleared_ids(ms, b, total - kf)),
                stop_reason,
                model,
                provider,
                usage,
                timestamp,
                error_message,
                response_id,
            },
        ),
        AgentMessageV::Llm(MessageV::User { content, timestamp }) => match img_step(ms, i, b, c.microcompact_keep_images as int) {
            Some(s) => AgentMessageV::Llm(MessageV::User { content: s.0, timestamp }),
            None => ms[i],
        },
        _ => ms[i],
    }
}

/// The actions of messages below `k`, newest first.
pub open spec fn newest_first(f: spec_fn(int) -> Option<ActionV>, k: int) -> Seq<ActionV>
    decreases k,
{
    if k <= 0 {
        Seq::empty()
    } else {
        opt_seq(f(k - 1)) + newest_first(f, k - 1)
    }
}

pub open spec fn step_action(s: Option<(Seq<ContentV>, ActionV)>) -> Option<ActionV> {
    match s {
        Some(x) => Some(x.1),
        None => None,
    }
}

/// The microcompact pass: nothing changes while fewer compactable results
/// than the trigger lie before the last two turns; otherwise every message
/// is rewritten as `micro_msg` says, and the actions are the results'
/// reductions, newest first, then the images', newest first.
pub open spec fn micro_spec(ms: Seq<AgentMessageV>, c: CompactionConfig) -> (Seq<AgentMessageV>, Seq<ActionV>) {
    let (b, total, kf, km) = tiers(ms, c);
    if total < c.microcompact_trigger {
        (ms, Seq::empty())
    } else {
        (
            Seq::new(ms.len(), |i: int| micro_msg(ms, i, c)),
            newest_first(|i: int| step_action(tool_step(ms, i, b, total, kf, km)), ms.len() as int) + newest_first(
                |i: int| step_action(img_step(ms, i, b, c.microcompact_keep_images as int)),
                ms.len() as int,
            ),
        )
    }
}

pub open spec fn step_view(o: Option<(Vec<Content>, CompactionAction)>) -> Option<(Seq<ContentV>, ActionV)> {
    match o {
        Some(x) => Some((cv(x.0@), x.1@)),
        None => None,
    }
}

proof fn lemma_comp_len_mono(ms: Seq<AgentMessageV>, k: int, b: int)
    requires
        0 <= k <= b,
    ensures
        comp_idx(ms, k).len() <= comp_idx(ms, b).len(),
        img_idx(ms, k).len() <= img_idx(ms, b).len(),
    decreases b - k,
{
    if k < b {
        lemma_comp_len_mono(ms, k, b - 1);
    }
}

fn tool_step_exec(
    messages: &[AgentMessage],
    i: usize,
    b: usize,
    total: usize,
    kf: usize,
    km: usize,
    jc: usize,
) -> (r: Option<(Vec<Content>, CompactionAction)>)
    requires
        i < messages@.len(),
        i < b,
        compactable(messages@[i as int]@),
        jc == comp_idx(mv(messages@), i as int).len(),
        jc < total,
        kf + km <= total,
    ensures
        step_view(r) == tool_step(mv(messages@), i as int, b as int, total as int, kf as int, km as int),
{
    let ghost ms = mv(messages@);
    proof {
        assert(ms[i as int] == messages@[i as int]@);
    }
    match &messages[i] {
        AgentMessage::Llm(Message::ToolResult { tool_name, content, .. }) => {
            let rank = total - 1 - jc;
            if rank < kf {
                return None;
            }
            let r = if rank < kf + km {
                to_metadata(tool_name.as_str(), content.as_slice(), messages, i)
            } else {
                let mut v: Vec<Content> = Vec::new();
                v.push(Content::Text { text: owned("[cleared]") });
                proof {
                    assert(cv(v@) =~= seq![ContentV::Text { text: "[cleared]"@ }]);
                }
                v
            };
            let before = content_tokens(content.as_slice());
            let after = content_tokens(r.as_slice());
            if after >= before {
                return None;
            }
            let a = single_action(i, tool_name.clone(), CompactionMethod::AgeCleared, before, after);
            Some((r, a))
        },
        _ => None,
    }
}

fn note_for(source: &ImageSource) -> (r: String)
    ensures
        r@ == image_note(source@),
{
    let hint = match source {
        ImageSource::Path { path } => path.clone(),
        ImageSource::Base64 { path, .. } => match path {
            Some(p) => p.clone(),
            None => String::new(),
        },
    };
    if hint.as_str().unicode_len() == 0 {
        owned("[image]")
    } else {
        let mut s = owned("[image: ");
        push_str(&mut s, hint.as_str());
        push_str(&mut s, "]");
        s
    }
}

fn note_images_of(content: &[Content]) -> (r: Vec<Content>)
    ensures
        cv(r@) == note_images(cv(content@)),
{
    let mut out: Vec<Content> = Vec::new();
    let mut i: usize = 0;
    while i < content.len()
        invariant
            i <= content@.len(),
            cv(out@) == note_images(cv(content@.take(i as int))),
        decreases content@.len() - i,
    {
        let ghost po = out@;
        match &content[i] {
            Content::Image { source } => {
                out.push(Content::Text { text: note_for(source) });
            },
            other => {
                out.push(other.clone());
            },
        }
        proof {
            assert(cv(out@) =~= cv(po).push(out@[i as int]@));
            assert(note_images(cv(content@.take(i + 1))) =~= note_images(cv(content@.take(i as int))).push(
                note_image(content@[i as int]@),
            ));
        }
        i = i + 1;
    }
    proof {
        assert(content@.take(content@.len() as int) =~= content@);
    }
    out
}

fn img_step_exec(
    messages: &[AgentMessage],
    i: usize,
    b: usize,
    nimg: usize,
    keep: usize,
    ji: usize,
) -> (r: Option<(Vec<Content>, CompactionAction)>)
    requires
        i < messages@.len(),
        i < b,
        user_image(messages@[i as int]@),
        ji == img_idx(mv(messages@), i as int).len(),
        ji < nimg,
        nimg == img_idx(mv(messages@), b as int).len(),
    ensures
        step_view(r) == img_step(mv(messages@), i as int, b as int, keep as int),
{
    let ghost ms = mv(messages@);
    proof {
        assert(ms[i as int] == messages@[i as int]@);
    }
    match &messages[i] {
        AgentMessage::Llm(Message::User { content, .. }) => {
            let rank = nimg - 1 - ji;
            if rank < keep {
                return None;
            }
            let r = note_images_of(content.as_slice());
            let before = content_tokens(content.as_slice());
            let after = content_tokens(r.as_slice());
            if after >= before {
                return None;
            }
            let a = single_action(i, owned("user"), CompactionMethod::ImageStripped, before, after);
            Some((r, a))
        },
        _ => None,
    }
}

fn has_user_image(m: &AgentMessage) -> (r: bool)
    ensures
        r == user_image(m@),
{
    match m {
        AgentMessage::Llm(Message::User { content, .. }) => has_image_block(content.as_slice()),
        _ => false,
    }
}

fn trim_calls_of(content: Vec<Content>, cleared: &Vec<String>) -> (r: Vec<Content>)
    ensures
        cv(r@) == trim_calls(cv(content@), strs(cleared@)),
{
    let ghost raw = content@;
    let mut out: Vec<Content> = Vec::new();
    for b in it: content
        invariant
            it.seq() == raw,
            cv(out@) == trim_calls(cv(raw.take(it.index() as int)), strs(cleared@)),
    {
        let ghost k = it.index();
        let ghost po = out@;
        proof {
            assert(raw[k] == b);
        }
        match b {
            Content::ToolCall { id, name, arguments } => {
                if contains_string(cleared.as_slice(), &id) {
                    match truncate_tool_use_input(arguments.clone(), MAX_TOOL_USE_INPUT_CHARS) {
                        Some(t) => {
                            let mut obj = owned("{\"_truncated\":");
                            let q = quote(t.as_str());
                            push_str(&mut obj, q.as_str());
                            push_str(&mut obj, "}");
                            out.push(Content::ToolCall { id, name, arguments: obj });
                        },
                        None => {
                            out.push(Content::ToolCall { id, name, arguments });
                        },
                    }
                } else {
                    out.push(Content::ToolCall { id, name, arguments });
                }
            },
            other => {
                out.push(other);
            },
        }
        proof {
            assert(cv(out@) =~= cv(po).push(out@[k]@));
            assert(trim_calls(cv(raw.take(k + 1)), strs(cleared@)) =~= trim_calls(cv(raw.take(k)), strs(cleared@)).push(
                trim_call(raw[k]@, strs(cleared@)),
            ));
        }
    }
    proof {
        assert(raw.take(raw.len() as int) =~= raw);
    }
    out
}

/// The microcompact pass.
pub struct Microcompact;

impl Pass for Microcompact {
    fn level(&self) -> (r: PassLevel)
        ensures
            r == PassLevel::Microcompact,
    {
        PassLevel::Microcompact
    }

    /// Count-driven: runs once enough compactable results have accumulated,
    /// whatever the token pressure.
    fn should_run(&self, ctx: &PassContext) -> (r: bool)
        ensures
            r == (ctx.pressure.compactable_tool_result_count >= ctx.config.microcompact_trigger),
    {
        ctx.pressure.compactable_tool_result_count >= ctx.config.microcompact_trigger
    }

    fn run(&self, messages: Vec<AgentMessage>, ctx: &PassContext) -> (r: PassResult)
        ensures
            (mv(r.messages@), av(r.actions@)) == micro_spec(mv(messages@), *ctx.config),
    {
        let config = ctx.config;
        let ghost ms = mv(messages@);
        let n = messages.len();
        let b = find_turn_boundary(messages.as_slice(), 2);
        proof {
            lemma_boundary_range(ms, ms.len() as int, 0, 2);
        }
        let mut total: usize = 0;
        let mut nimg: usize = 0;
        let mut i: usize = 0;
        while i < b
            invariant
                i <= b <= n == messages@.len(),
                ms == mv(messages@),
                total == comp_idx(ms, i as int).len(),
                nimg == img_idx(ms, i as int).len(),
                total <= i,
                nimg <= i,
            decreases b - i,
        {
            proof {
                assert(ms[i as int] == messages@[i as int]@);
            }
            if is_compactable_and_not_cleared(&messages[i]) {
                total = total + 1;
            }
            if has_user_image(&messages[i]) {
                nimg = nimg + 1;
            }
            i = i + 1;
        }
        if total < config.microcompact_trigger {
            return PassResult { messages, actions: Vec::new() };
        }
        let kf = if config.microcompact_keep_full < total { config.microcompact_keep_full } else { total };
        let km = if config.microcompact_keep_meta < total - kf { config.microcompact_keep_meta } else { total - kf };
        let keep_images = config.microcompact_keep_images;
        let ghost lim = total - kf;
        let mut tool_steps: Vec<Option<(Vec<Content>, CompactionAction)>> = Vec::new();
        let mut img_steps: Vec<Option<(Vec<Content>, CompactionAction)>> = Vec::new();
        let mut cleared: Vec<String> = Vec::new();
        let mut jc: usize = 0;
        let mut ji: usize = 0;
        let mut i: usize = 0;
        while i < n
            invariant
                i <= n == messages@.len(),
                b <= n,
                ms == mv(messages@),
                total == comp_idx(ms, b as int).len(),
                nimg == img_idx(ms, b as int).len(),
                kf + km <= total,
                lim == total - kf,
                jc == comp_idx(ms, min_int(i as int, b as int)).len(),
                ji == img_idx(ms, min_int(i as int, b as int)).len(),
                tool_steps@.len() == i,
                img_steps@.len() == i,
                forall|k: int| 0 <= k < i ==> step_view(#[trigger] tool_steps@[k]) == tool_step(ms, k, b as int, total as int, kf as int, km as int),
                forall|k: int| 0 <= k < i ==> step_view(#[trigger] img_steps@[k]) == img_step(ms, k, b as int, keep_images as int),
                strs(cleared@) == cleared_ids(ms, min_int(i as int, b as int), lim),
            decreases n - i,
        {
            proof {
                assert(ms[i as int] == messages@[i as int]@);
            }
            let ghost pc = cleared@;
            if i < b {
                proof {
                    lemma_comp_len_mono(ms, i + 1, b as int);
                }
                if is_compactable_and_not_cleared(&messages[i]) {
                    tool_steps.push(tool_step_exec(messages.as_slice(), i, b, total, kf, km, jc));
                    if jc < total - kf {
                        match &messages[i] {
                            AgentMessage::Llm(Message::ToolResult { tool_call_id, .. }) => {
                                cleared.push(tool_call_id.clone());
                                proof {
                                    assert(strs(cleared@) =~= strs(pc) + seq![tool_call_id@]);
                                }
                            },
                            _ => {},
                        }
                    } else {
                        proof {
                            assert(strs(cleared@) =~= strs(pc) + Seq::<Seq<char>>::empty());
                        }
                    }
                    jc = jc + 1;
                } else {
                    tool_steps.push(None);
                    proof {
                        assert(strs(cleared@) =~= strs(pc) + Seq::<Seq<char>>::empty());
                    }
                }
                if has_user_image(&messages[i]) {
                    img_steps.push(img_step_exec(messages.as_slice(), i, b, nimg, keep_images, ji));
                    ji = ji + 1;
                } else {
                    img_steps.push(None);
                }
            } else {
                tool_steps.push(None);
                img_steps.push(None);
            }
            i = i + 1;
        }
        proof {
            assert(min_int(n as int, b as int) == b);
        }
        let ghost raw = messages@;
        let ghost c = *config;
        let mut result: Vec<AgentMessage> = Vec::new();
        let mut idx: usize = 0;
        for m in it: messages
            invariant
                it.seq() == raw,
                idx == it.index(),
                ms == mv(raw),
                n == raw.len(),
                c == *config,
                tiers(ms, c) == (b as int, total as int, kf as int, km as int),
                keep_images == c.microcompact_keep_images,
                tool_steps@.len() == n,
                img_steps@.len() == n,
                forall|k: int| 0 <= k < n ==> step_view(#[trigger] tool_steps@[k]) == tool_step(ms, k, b as int, total as int, kf as int, km as int),
                forall|k: int| 0 <= k < n ==> step_view(#[trigger] img_steps@[k]) == img_step(ms, k, b as int, keep_images as int),
                strs(cleared@) == cleared_ids(ms, b as int, total - kf),
                mv(result@) == Seq::new(idx as nat, |k: int| micro_msg(ms, k, c)),
                result@.len() == idx,
        {
            proof {
                assert(m@ == ms[idx as int]);
                assert(idx < n);
            }
            let ghost pr = result@;
            let ghost ts = tool_steps@[idx as int];
            let ghost is = img_steps@[idx as int];
            match m {
                AgentMessage::Llm(Message::ToolResult { tool_call_id, tool_name, content, is_error, timestamp, retention }) => {
                    let nc = match &tool_steps[idx] {
                        Some(s) => clone_content(s.0.as_slice()),
                        None => content,
                    };
                    result.push(AgentMessage::Llm(Message::ToolResult { tool_call_id, tool_name, content: nc, is_error, timestamp, retention }));
                },
                AgentMessage::Llm(Message::Assistant { content, stop_reason, model, provider, usage, timestamp, error_message, response_id }) => {
                    let nc = trim_calls_of(content, &cleared);
                    result.push(AgentMessage::Llm(Message::Assistant { content: nc, stop_reason, model, provider, usage, timestamp, error_message, response_id }));
                },
                AgentMessage::Llm(Message::User { content, timestamp }) => {
                    let nc = match &img_steps[idx] {
                        Some(s) => clone_content(s.0.as_slice()),
                        None => content,
                    };
                    result.push(AgentMessage::Llm(Message::User { content: nc, timestamp }));
                },
                other => {
                    result.push(other);
                },
            }
            proof {
                assert(step_view(ts) == tool_step(ms, idx as int, b as int, total as int, kf as int, km as int));
                assert(step_view(is) == img_step(ms, idx as int, b as int, keep_images as int));
                assert(result@[idx as int]@ == micro_msg(ms, idx as int, c));
                assert(mv(result@) =~= mv(pr).push(result@[idx as int]@));
                assert(mv(result@) =~= Seq::new((idx + 1) as nat, |k: int| micro_msg(ms, k, c)));
            }
            idx = idx + 1;
        }
        let mut actions: Vec<CompactionAction> = Vec::new();
        while tool_steps.len() > 0
            invariant
                tool_steps@.len() <= n,
                forall|k: int| 0 <= k < tool_steps@.len() ==> step_view(#[trigger] tool_steps@[k]) == tool_step(ms, k, b as int, total as int, kf as int, km as int),
                av(actions@) + newest_first((|q: int| step_action(tool_step(ms, q, b as int, total as int, kf as int, km as int))), tool_steps@.len() as int) == newest_first((|q: int| step_action(tool_step(ms, q, b as int, total as int, kf as int, km as int))), n as int),
            decreases tool_steps@.len(),
        {
            let ghost k = tool_steps@.len() - 1;
            let ghost pa = actions@;
            let ghost last = tool_steps@[k];
            proof {
                assert(step_view(last) == tool_step(ms, k, b as int, total as int, kf as int, km as int));
            }
            let s = tool_steps.pop();
            match s {
                Some(Some((_, a))) => {
                    actions.push(a);
                },
                _ => {},
            }
            proof {
                assert(av(actions@) =~= av(pa) + opt_seq(step_action(tool_step(ms, k, b as int, total as int, kf as int, km as int))));
                assert(newest_first((|q: int| step_action(tool_step(ms, q, b as int, total as int, kf as int, km as int))), k + 1) == opt_seq(step_action(tool_step(ms, k, b as int, total as int, kf as int, km as int))) + newest_first((|q: int| step_action(tool_step(ms, q, b as int, total as int, kf as int, km as int))), k));
                assert(av(actions@) + newest_first((|q: int| step_action(tool_step(ms, q, b as int, total as int, kf as int, km as int))), k) =~= av(pa) + newest_first((|q: int| step_action(tool_step(ms, q, b as int, total as int, kf as int, km as int))), k + 1));
            }
        }
        proof {
            assert(av(actions@) =~= newest_first((|q: int| step_action(tool_step(ms, q, b as int, total as int, kf as int, km as int))), n as int));
        }
        let ghost tool_acts = actions@;
        while img_steps.len() > 0
            invariant
                img_steps@.len() <= n,
                forall|k: int| 0 <= k < img_steps@.len() ==> step_view(#[trigger] img_steps@[k]) == img_step(ms, k, b as int, keep_images as int),
                av(actions@) + newest_first((|q: int| step_action(img_step(ms, q, b as int, keep_images as int))), img_steps@.len() as int) == av(tool_acts) + newest_first((|q: int| step_action(img_step(ms, q, b as int, keep_images as int))), n as int),
            decreases img_steps@.len(),
        {
            let ghost k = img_steps@.len() - 1;
            let ghost pa = actions@;
            let ghost last = img_steps@[k];
            proof {
                assert(step_view(last) == img_step(ms, k, b as int, keep_images as int));
            }
            let s = img_steps.pop();
            match s {
                Some(Some((_, a))) => {
                    actions.push(a);
                },
                _ => {},
            }
            proof {
                assert(av(actions@) =~= av(pa) + opt_seq(step_action(img_step(ms, k, b as int, keep_images as int))));
                assert(newest_first((|q: int| step_action(img_step(ms, q, b as int, keep_images as int))), k + 1) == opt_seq(step_action(img_step(ms, k, b as int, keep_images as int))) + newest_first((|q: int| step_action(img_step(ms, q, b as int, keep_images as int))), k));
                assert(av(actions@) + newest_first((|q: int| step_action(img_step(ms, q, b as int, keep_images as int))), k) =~= av(pa) + newest_first((|q: int| step_action(img_step(ms, q, b as int, keep_images as int))), k + 1));
            }
        }
        proof {
            assert(av(actions@) =~= av(tool_acts) + newest_first((|q: int| step_action(img_step(ms, q, b as int, keep_images as int))), n as int));
        }
        PassResult { messages: result, actions }
    }
}

} // verus!
