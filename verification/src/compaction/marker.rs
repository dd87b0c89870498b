//! The marker message left where evicted messages were: what was removed,
//! the tasks and edits already done, environment facts, and the latest
//! conclusion and request.

use vstd::prelude::*;
use crate::clock::now_or_zero;
use crate::compaction::metadata::{call_param, find_tool_call_param, opt_str, text_parts};
use crate::compaction::passes::collapse::filler;
use crate::text::{chars_of, contains, dec, fit_prefix, fit_prefix_len, has_sub, is_prefix, lines, lines_of, owned, push_str, push_usize, starts_with, str_eq, string_of, strs, take_vec, trim, trim_chars, trimmed, vecs};
use crate::sanitize::contains_string;
use crate::tokens::byte_len;
use crate::types::{AgentMessage, AgentMessageV, Content, ContentV, Message, MessageV, cv, mv};

verus! {

/// Longest anchor text kept from a user request, in characters.
pub const ANCHOR_MAX_CHARS: usize = 200;
/// Longest assistant conclusion kept, in characters.
pub const CONCLUSION_MAX_CHARS: usize = 300;

/// A user text worth anchoring: not empty, not a reminder, not a marker.
pub open spec fn candidate(t: Seq<char>) -> bool {
    t.len() > 0 && !is_prefix("<system-reminder>"@, t) && !is_prefix("[Context compacted"@, t)
}

/// `t` cut to `max` characters with an ellipsis when longer.
pub open spec fn clip_chars(t: Seq<char>, max: int) -> Seq<char> {
    if t.len() > max {
        t.take(max) + "…"@
    } else {
        t
    }
}

fn is_candidate(t: &str) -> (r: bool)
    ensures
        r == candidate(t@),
{
    t.unicode_len() > 0 && !starts_with(t, "<system-reminder>") && !starts_with(t, "[Context compacted")
}

/// Cuts `t` to `max` characters, marking the cut with an ellipsis.
pub fn clip(t: &str, max: usize) -> (r: String)
    ensures
        r@ == clip_chars(t@, max as int),
{
    let v = chars_of(t);
    if v.len() > max {
        let h = take_vec(&v, max);
        let mut s = string_of(&h);
        push_str(&mut s, "…");
        s
    } else {
        owned(t)
    }
}

/// The first text block of `c` whose trimmed text is a candidate, trimmed.
pub open spec fn first_candidate(c: Seq<ContentV>) -> Option<Seq<char>>
    decreases c.len(),
{
    if c.len() == 0 {
        None
    } else {
        match c[0] {
            ContentV::Text { text } => if candidate(trim(text)) {
                Some(trim(text))
            } else {
                first_candidate(c.drop_first())
            },
            _ => first_candidate(c.drop_first()),
        }
    }
}

fn first_candidate_of(content: &[Content]) -> (r: Option<String>)
    ensures
        opt_str(r) == first_candidate(cv(content@)),
{
    let mut i: usize = 0;
    proof {
        assert(cv(content@).skip(0) =~= cv(content@));
    }
    while i < content.len()
        invariant
            i <= content@.len(),
            first_candidate(cv(content@)) == first_candidate(cv(content@).skip(i as int)),
        decreases content@.len() - i,
    {
        proof {
            assert(cv(content@).skip(i as int).drop_first() =~= cv(content@).skip(i + 1));
            assert(cv(content@).skip(i as int)[0] == content@[i as int]@);
        }
        if let Content::Text { text } = &content[i] {
            let t = trimmed(text.as_str());
            if is_candidate(t.as_str()) {
                return Some(t);
            }
        }
        i = i + 1;
    }
    None
}

/// The newest user message below `k` with a candidate text: that text,
/// clipped to the anchor length.
pub open spec fn latest_user_from(ms: Seq<AgentMessageV>, k: int) -> Option<Seq<char>>
    decreases k,
{
    if k <= 0 {
        None
    } else {
        match ms[k - 1] {
            AgentMessageV::Llm(MessageV::User { content, .. }) => match first_candidate(content) {
                Some(t) => Some(clip_chars(t, ANCHOR_MAX_CHARS as int)),
                None => latest_user_from(ms, k - 1),
            },
            _ => latest_user_from(ms, k - 1),
        }
    }
}

pub open spec fn latest_user_spec(ms: Seq<AgentMessageV>) -> Option<Seq<char>> {
    latest_user_from(ms, ms.len() as int)
}

/// The most recent user request, clipped.
pub fn latest_user_text(messages: &[AgentMessage]) -> (r: Option<String>)
    ensures
        opt_str(r) == latest_user_spec(mv(messages@)),
{
    let ghost ms = mv(messages@);
    let mut k = messages.len();
    while k > 0
        invariant
            k <= messages@.len(),
            ms == mv(messages@),
            latest_user_spec(ms) == latest_user_from(ms, k as int),
        decreases k,
    {
        proof {
            assert(ms[k - 1] == messages@[k - 1]@);
        }
        if let AgentMessage::Llm(Message::User { content, .. }) = &messages[k - 1] {
            if let Some(t) = first_candidate_of(content.as_slice()) {
                return Some(clip(t.as_str(), ANCHOR_MAX_CHARS));
            }
        }
        k = k - 1;
    }
    None
}

/// The candidate texts of `c` other than `latest`, clipped.
pub open spec fn retained_in(c: Seq<ContentV>, latest: Option<Seq<char>>) -> Seq<Seq<char>>
    decreases c.len(),
{
    if c.len() == 0 {
        Seq::empty()
    } else {
        retained_in(c.drop_last(), latest) + match c.last() {
            ContentV::Text { text } => if candidate(trim(text)) && latest != Some(trim(text)) {
                seq![clip_chars(trim(text), ANCHOR_MAX_CHARS as int)]
            } else {
                Seq::empty()
            },
            _ => Seq::empty(),
        }
    }
}

/// The candidate user texts below `k` other than `latest`, clipped, in order.
pub open spec fn retained_user(ms: Seq<AgentMessageV>, k: int, latest: Option<Seq<char>>) -> Seq<Seq<char>>
    decreases k,
{
    if k <= 0 {
        Seq::empty()
    } else {
        retained_user(ms, k - 1, latest) + match ms[k - 1] {
            AgentMessageV::Llm(MessageV::User { content, .. }) => retained_in(content, latest),
            _ => Seq::empty(),
        }
    }
}

fn push_retained(out: &mut Vec<String>, content: &[Content], latest: &Option<String>)
    ensures
        strs(final(out)@) == strs(old(out)@) + retained_in(cv(content@), opt_str(*latest)),
{
    let mut i: usize = 0;
    while i < content.len()
        invariant
            i <= content@.len(),
            strs(out@) == strs(old(out)@) + retained_in(cv(content@.take(i as int)), opt_str(*latest)),
        decreases content@.len() - i,
    {
        proof {
            assert(cv(content@.take(i + 1)).drop_last() =~= cv(content@.take(i as int)));
            assert(cv(content@.take(i + 1)).last() == content@[i as int]@);
        }
        let ghost po = out@;
        let mut pushed = false;
        if let Content::Text { text } = &content[i] {
            let t = trimmed(text.as_str());
            let same = match latest {
                Some(l) => str_eq(l.as_str(), t.as_str()),
                None => false,
            };
            if is_candidate(t.as_str()) && !same {
                out.push(clip(t.as_str(), ANCHOR_MAX_CHARS));
                pushed = true;
                proof {
                    assert(strs(out@) =~= strs(po) + seq![clip_chars(t@, ANCHOR_MAX_CHARS as int)]);
                }
            }
        }
        proof {
            if !pushed {
                assert(strs(out@) =~= strs(po) + Seq::<Seq<char>>::empty());
            }
        }
        i = i + 1;
    }
    proof {
        assert(content@.take(content@.len() as int) =~= content@);
    }
}

fn retained_user_texts(messages: &[AgentMessage], latest: &Option<String>) -> (r: Vec<String>)
    ensures
        strs(r@) == retained_user(mv(messages@), messages@.len() as int, opt_str(*latest)),
{
    let ghost ms = mv(messages@);
    let mut out: Vec<String> = Vec::new();
    let mut i: usize = 0;
    while i < messages.len()
        invariant
            i <= messages@.len(),
            ms == mv(messages@),
            strs(out@) == retained_user(ms, i as int, opt_str(*latest)),
        decreases messages@.len() - i,
    {
        proof {
            assert(ms[i as int] == messages@[i as int]@);
        }
        if let AgentMessage::Llm(Message::User { content, .. }) = &messages[i] {
            push_retained(&mut out, content.as_slice(), latest);
        } else {
            proof {
                assert(strs(out@) =~= strs(out@) + Seq::<Seq<char>>::empty());
            }
        }
        i = i + 1;
    }
    out
}

/// The path of the file the call behind result `i` touched: its
/// `file_path` argument, else its `path`.
pub open spec fn touched_path(ms: Seq<AgentMessageV>, i: int, id: Seq<char>) -> Option<Seq<char>> {
    match call_param(ms, i, id, "file_path"@) {
        Some(p) => Some(p),
        None => call_param(ms, i, id, "path"@),
    }
}

/// Successful `edit`/`write` results below `k`: the distinct paths (first
/// ten) and their entries `path (edited)` / `path (created)`.
pub open spec fn mods_fold(ms: Seq<AgentMessageV>, k: int) -> (Seq<Seq<char>>, Seq<Seq<char>>)
    decreases k,
{
    if k <= 0 {
        (Seq::empty(), Seq::empty())
    } else {
        let prev = mods_fold(ms, k - 1);
        if prev.1.len() >= 10 {
            prev
        } else {
            match ms[k - 1] {
                AgentMessageV::Llm(MessageV::ToolResult { tool_call_id, tool_name, is_error, .. }) => {
                    let action: Option<Seq<char>> = if tool_name == "edit"@ {
                        Some("edited"@)
                    } else if tool_name == "write"@ {
                        Some("created"@)
                    } else {
                        None
                    };
                    if is_error || action is None {
                        prev
                    } else {
                        match touched_path(ms, k - 1, tool_call_id) {
                            Some(p) => if prev.0.contains(p) {
                                prev
                            } else {
                                (prev.0.push(p), prev.1.push(p + " ("@ + action->0 + ")"@))
                            },
                            None => prev,
                        }
                    }
                },
                _ => prev,
            }
        }
    }
}

fn extract_file_modifications(messages: &[AgentMessage]) -> (r: Vec<String>)
    ensures
        strs(r@) == mods_fold(mv(messages@), messages@.len() as int).1,
{
    let ghost ms = mv(messages@);
    let mut seen: Vec<String> = Vec::new();
    let mut out: Vec<String> = Vec::new();
    let mut i: usize = 0;
    while i < messages.len()
        invariant
            i <= messages@.len(),
            ms == mv(messages@),
            (strs(seen@), strs(out@)) == mods_fold(ms, i as int),
        decreases messages@.len() - i,
    {
        proof {
            assert(ms[i as int] == messages@[i as int]@);
        }
        if out.len() < 10 {
            if let AgentMessage::Llm(Message::ToolResult { tool_call_id, tool_name, is_error, .. }) = &messages[i] {
                let action: Option<&str> = if str_eq(tool_name.as_str(), "edit") {
                    Some("edited")
                } else if str_eq(tool_name.as_str(), "write") {
                    Some("created")
                } else {
                    None
                };
                if !*is_error {
                    if let Some(a) = action {
                        let path = match find_tool_call_param(messages, i, tool_call_id.as_str(), "file_path") {
                            Some(p) => Some(p),
                            None => find_tool_call_param(messages, i, tool_call_id.as_str(), "path"),
                        };
                        if let Some(p) = path {
                            if !contains_string(seen.as_slice(), &p) {
                                let mut e = p.clone();
                                push_str(&mut e, " (");
                                push_str(&mut e, a);
                                push_str(&mut e, ")");
                                let ghost ps = seen@;
                                let ghost po = out@;
                                seen.push(p);
                                out.push(e);
                                proof {
                                    assert(strs(seen@) =~= strs(ps).push(p@));
                                    assert(strs(out@) =~= strs(po).push(e@));
                                }
                            }
                        }
                    }
                }
            }
        }
        i = i + 1;
    }
    out
}

/// A command that probes the environment.
pub open spec fn env_probe(cmd: Seq<char>) -> bool {
    has_sub(cmd, "which "@) || has_sub(cmd, "find /"@) || has_sub(cmd, "rustup"@) || is_prefix("export PATH="@, cmd)
}

pub fn is_env_probe(cmd: &str) -> (r: bool)
    ensures
        r == env_probe(cmd@),
{
    contains(cmd, "which ") || contains(cmd, "find /") || contains(cmd, "rustup") || starts_with(cmd, "export PATH=")
}

/// A line that names a toolchain location.
pub open spec fn env_fact(t: Seq<char>) -> bool {
    has_sub(t, "/bin/"@) || has_sub(t, "/usr/"@) || has_sub(t, "toolchain"@) || has_sub(t, "rustup"@)
}

/// A fact cut to the characters of its first 97 bytes and an ellipsis when
/// over 100 bytes.
pub open spec fn fact_entry(t: Seq<char>) -> Seq<char> {
    if byte_len(t) > 100 {
        t.take(fit_prefix(t, 97) as int) + "..."@
    } else {
        t
    }
}

/// The entry for the first line among `ls` whose trimmed text is a fact.
pub open spec fn first_fact(ls: Seq<Seq<char>>) -> Option<Seq<char>>
    decreases ls.len(),
{
    if ls.len() == 0 {
        None
    } else if env_fact(trim(ls[0])) {
        Some(fact_entry(trim(ls[0])))
    } else {
        first_fact(ls.drop_first())
    }
}

/// The first five lines of a text.
pub open spec fn first_lines(text: Seq<char>) -> Seq<Seq<char>> {
    let ls = lines(text);
    if ls.len() <= 5 {
        ls
    } else {
        ls.take(5)
    }
}

/// Environment facts from successful `bash` probes below `k` (at most five):
/// the first fact line of each probe's first five lines.
pub open spec fn env_fold(ms: Seq<AgentMessageV>, k: int) -> Seq<Seq<char>>
    decreases k,
{
    if k <= 0 {
        Seq::empty()
    } else {
        let prev = env_fold(ms, k - 1);
        if prev.len() >= 5 {
            prev
        } else {
            match ms[k - 1] {
                AgentMessageV::Llm(MessageV::ToolResult { tool_call_id, tool_name, content, is_error, .. }) => {
                    let cmd = match call_param(ms, k - 1, tool_call_id, "command"@) {
                        Some(c) => c,
                        None => Seq::empty(),
                    };
                    if is_error || tool_name != "bash"@ || !env_probe(cmd) {
                        prev
                    } else {
                        match first_fact(first_lines(crate::text::join(text_parts(content), "\n"@))) {
                            Some(e) => prev.push(e),
                            None => prev,
                        }
                    }
                },
                _ => prev,
            }
        }
    }
}

fn fact_entry_of(t: Vec<char>) -> (r: String)
    ensures
        r@ == fact_entry(t@),
{
    let s = string_of(&t);
    if s.as_str().as_bytes().len() > 100 {
        let k = fit_prefix_len(&t, 97);
        let h = take_vec(&t, k);
        let mut r = string_of(&h);
        push_str(&mut r, "...");
        r
    } else {
        s
    }
}

/// The fact entry of the first five lines of `text`.
pub fn first_fact_of(text: &str) -> (r: Option<String>)
    ensures
        opt_str(r) == first_fact(first_lines(text@)),
{
    let ls = lines_of(text);
    let ghost l = lines(text@);
    let ghost f = first_lines(text@);
    proof {
        assert(vecs(ls@) =~= l);
        assert(f.skip(0) =~= f);
    }
    let lim = if ls.len() <= 5 { ls.len() } else { 5 };
    let mut i: usize = 0;
    while i < lim
        invariant
            i <= lim <= ls@.len(),
            lim == f.len(),
            vecs(ls@) == l,
            f == first_lines(text@),
            l == lines(text@),
            forall|k: int| 0 <= k < lim ==> f[k] == #[trigger] l[k],
            first_fact(f) == first_fact(f.skip(i as int)),
        decreases lim - i,
    {
        proof {
            assert(f.skip(i as int).drop_first() =~= f.skip(i + 1));
            assert(f.skip(i as int)[0] == ls@[i as int]@);
        }
        let s = string_of(ls[i].as_slice());
        let t = trim_chars(s.as_str());
        let ts = string_of(&t);
        if contains(ts.as_str(), "/bin/") || contains(ts.as_str(), "/usr/") || contains(ts.as_str(), "toolchain")
            || contains(ts.as_str(), "rustup") {
            return Some(fact_entry_of(t));
        }
        i = i + 1;
    }
    None
}

fn extract_env_discoveries(messages: &[AgentMessage]) -> (r: Vec<String>)
    ensures
        strs(r@) == env_fold(mv(messages@), messages@.len() as int),
{
    let ghost ms = mv(messages@);
    let mut out: Vec<String> = Vec::new();
    let mut i: usize = 0;
    while i < messages.len()
        invariant
            i <= messages@.len(),
            ms == mv(messages@),
            strs(out@) == env_fold(ms, i as int),
        decreases messages@.len() - i,
    {
        proof {
            assert(ms[i as int] == messages@[i as int]@);
        }
        if out.len() < 5 {
            if let AgentMessage::Llm(Message::ToolResult { tool_call_id, tool_name, content, is_error, .. }) = &messages[i] {
                let cmd = match find_tool_call_param(messages, i, tool_call_id.as_str(), "command") {
                    Some(c) => c,
                    None => String::new(),
                };
                if !*is_error && str_eq(tool_name.as_str(), "bash") && is_env_probe(cmd.as_str()) {
                    let text = crate::compaction::metadata::extract_text(content.as_slice());
                    if let Some(e) = first_fact_of(text.as_str()) {
                        let ghost po = out@;
                        out.push(e);
                        proof {
                            assert(strs(out@) =~= strs(po).push(e@));
                        }
                    }
                }
            }
        }
        i = i + 1;
    }
    out
}

/// Scanning the blocks of `c` below `k` backwards: the first text that is
/// not empty, filler or a summary, trimmed and clipped.
pub open spec fn last_text_from(c: Seq<ContentV>, k: int) -> Option<Seq<char>>
    decreases k,
{
    if k <= 0 {
        None
    } else {
        match c[k - 1] {
            ContentV::Text { text } => {
                let t = trim(text);
                if t.len() == 0 || filler(t) || is_prefix("[Summary]"@, t) {
                    last_text_from(c, k - 1)
                } else {
                    Some(clip_chars(t, CONCLUSION_MAX_CHARS as int))
                }
            },
            _ => last_text_from(c, k - 1),
        }
    }
}

/// The conclusion of the newest assistant message below `k` that has one.
pub open spec fn latest_assistant_from(ms: Seq<AgentMessageV>, k: int) -> Option<Seq<char>>
    decreases k,
{
    if k <= 0 {
        None
    } else {
        match ms[k - 1] {
            AgentMessageV::Llm(MessageV::Assistant { content, .. }) => match last_text_from(content, content.len() as int) {
                Some(t) => Some(t),
                None => latest_assistant_from(ms, k - 1),
            },
            _ => latest_assistant_from(ms, k - 1),
        }
    }
}

fn last_text_of(content: &[Content]) -> (r: Option<String>)
    ensures
        opt_str(r) == last_text_from(cv(content@), content@.len() as int),
{
    let ghost c = cv(content@);
    let mut k = content.len();
    while k > 0
        invariant
            k <= content@.len(),
            c == cv(content@),
            last_text_from(c, content@.len() as int) == last_text_from(c, k as int),
        decreases k,
    {
        proof {
            assert(c[k - 1] == content@[k - 1]@);
        }
        if let Content::Text { text } = &content[k - 1] {
            let t = trimmed(text.as_str());
            if !(t.as_str().unicode_len() == 0 || crate::compaction::passes::collapse::is_filler(t.as_str())
                || starts_with(t.as_str(), "[Summary]")) {
                return Some(clip(t.as_str(), CONCLUSION_MAX_CHARS));
            }
        }
        k = k - 1;
    }
    None
}

/// The latest substantive assistant text, trimmed and clipped to the
/// conclusion length.
pub fn latest_assistant_text(messages: &[AgentMessage]) -> (r: Option<String>)
    ensures
        opt_str(r) == latest_assistant_from(mv(messages@), messages@.len() as int),
{
    let ghost ms = mv(messages@);
    let mut k = messages.len();
    while k > 0
        invariant
            k <= messages@.len(),
            ms == mv(messages@),
            latest_assistant_from(ms, messages@.len() as int) == latest_assistant_from(ms, k as int),
        decreases k,
    {
        proof {
            assert(ms[k - 1] == messages@[k - 1]@);
        }
        if let AgentMessage::Llm(Message::Assistant { content, .. }) = &messages[k - 1] {
            if let Some(t) = last_text_of(content.as_slice()) {
                return Some(t);
            }
        }
        k = k - 1;
    }
    None
}

/// Each item on a line of its own after a dash.
pub open spec fn bullets(items: Seq<Seq<char>>) -> Seq<char>
    decreases items.len(),
{
    if items.len() == 0 {
        Seq::empty()
    } else {
        bullets(items.drop_last()) + "- "@ + items.last() + "\n"@
    }
}

fn push_bullets(out: &mut String, items: &Vec<String>)
    ensures
        final(out)@ == old(out)@ + bullets(strs(items@)),
{
    let mut i: usize = 0;
    while i < items.len()
        invariant
            i <= items@.len(),
            out@ == old(out)@ + bullets(strs(items@.take(i as int))),
        decreases items@.len() - i,
    {
        proof {
            assert(strs(items@.take(i + 1)).drop_last() =~= strs(items@.take(i as int)));
            assert(strs(items@.take(i + 1)).last() == items@[i as int]@);
        }
        push_str(out, "- ");
        push_str(out, items[i].as_str());
        push_str(out, "\n");
        i = i + 1;
    }
    proof {
        assert(items@.take(items@.len() as int) =~= items@);
    }
}

/// The text of a full marker for `ms` with the count note `note`.
pub open spec fn marker_text(ms: Seq<AgentMessageV>, note: Seq<char>) -> Seq<char> {
    let head = "[Context compacted: "@ + note + "]"@;
    let latest = latest_user_spec(ms);
    let completed = retained_user(ms, ms.len() as int, latest);
    let s1 = if completed.len() > 0 {
        head + "\n\nRetained early context contains these COMPLETED tasks (already handled, do not revisit):\n"@
            + bullets(completed)
    } else {
        head
    };
    let mods = mods_fold(ms, ms.len() as int).1;
    let s2 = if mods.len() > 0 {
        s1 + "\nFiles already modified (do not re-apply these edits):\n"@ + bullets(mods)
    } else {
        s1
    };
    let env = env_fold(ms, ms.len() as int);
    let s3 = if env.len() > 0 {
        s2 + "\nEnvironment (discovered earlier):\n"@ + bullets(env)
    } else {
        s2
    };
    let s4 = match latest_assistant_from(ms, ms.len() as int) {
        Some(c) => s3 + "\nLast assistant conclusion:\n"@ + c + "\n"@,
        None => s3,
    };
    match latest {
        Some(t) => s4 + "\nMost recent user request (verbatim):\n"@ + t,
        None => s4,
    }
}

/// A user message carrying `text`, stamped `now`.
pub open spec fn text_message_spec(text: Seq<char>, now: u64) -> AgentMessageV {
    AgentMessageV::Llm(MessageV::User { content: seq![ContentV::Text { text }], timestamp: now })
}

fn text_message(text: String, now: u64) -> (r: AgentMessage)
    ensures
        r@ == text_message_spec(text@, now),
{
    crate::types::user_text_message(text, now)
}

fn full_marker_text(messages: &[AgentMessage], note: &str) -> (r: String)
    ensures
        r@ == marker_text(mv(messages@), note@),
{
    let mut out = owned("[Context compacted: ");
    push_str(&mut out, note);
    push_str(&mut out, "]");
    let latest = latest_user_text(messages);
    let completed = retained_user_texts(messages, &latest);
    if completed.len() > 0 {
        push_str(&mut out, "\n\nRetained early context contains these COMPLETED tasks (already handled, do not revisit):\n");
        push_bullets(&mut out, &completed);
    }
    let mods = extract_file_modifications(messages);
    if mods.len() > 0 {
        push_str(&mut out, "\nFiles already modified (do not re-apply these edits):\n");
        push_bullets(&mut out, &mods);
    }
    let env = extract_env_discoveries(messages);
    if env.len() > 0 {
        push_str(&mut out, "\nEnvironment (discovered earlier):\n");
        push_bullets(&mut out, &env);
    }
    if let Some(c) = latest_assistant_text(messages) {
        push_str(&mut out, "\nLast assistant conclusion:\n");
        push_str(&mut out, c.as_str());
        push_str(&mut out, "\n");
    }
    if let Some(t) = latest {
        push_str(&mut out, "\nMost recent user request (verbatim):\n");
        push_str(&mut out, t.as_str());
    }
    out
}

/// The note of a marker that replaces `removed` messages.
pub open spec fn removed_note(removed: nat) -> Seq<char> {
    dec(removed) + " messages removed"@
}

/// The full marker for removing `removed` messages from `pre_drop_messages`,
/// stamped `now`.
pub fn build_full_marker_at(pre_drop_messages: &[AgentMessage], removed: usize, now: u64) -> (r: AgentMessage)
    ensures
        r@ == text_message_spec(marker_text(mv(pre_drop_messages@), removed_note(removed as nat)), now),
{
    let mut note = String::new();
    push_usize(&mut note, removed);
    push_str(&mut note, " messages removed");
    proof {
        assert(note@ =~= removed_note(removed as nat));
    }
    let text = full_marker_text(pre_drop_messages, note.as_str());
    text_message(text, now)
}

/// The full marker for removing `removed` messages, stamped with the clock.
pub fn build_full_marker(pre_drop_messages: &[AgentMessage], removed: usize) -> (r: AgentMessage)
    ensures
        exists|now: u64| r@ == text_message_spec(marker_text(mv(pre_drop_messages@), removed_note(removed as nat)), now),
{
    build_full_marker_at(pre_drop_messages, removed, now_or_zero())
}

/// The minimal marker `[Context compacted: messages removed]`, stamped `now`.
pub fn build_fallback_marker_at(now: u64) -> (r: AgentMessage)
    ensures
        r@ == text_message_spec("[Context compacted: messages removed]"@, now),
{
    text_message(owned("[Context compacted: messages removed]"), now)
}

} // verus!
