//! Memory extraction: the cumulative state carried across compactions (file
//! operations, environment facts, completed requests), read from the
//! messages a compaction evicts.

use vstd::prelude::*;
use crate::compaction::file_ops::{FileOps, FileOpsV, ins, insert_unique};
use crate::compaction::marker::{env_probe, first_fact, first_fact_of, first_lines};
use crate::compaction::metadata::{call_param, extract_text, find_tool_call_param, text_parts};
use crate::json::{str_member, str_member_of};

use crate::text::{fit_prefix, fit_prefix_len, is_prefix, join, join_strings, lowercase, owned, push_str, starts_with, str_eq, string_of, strs, take_vec, to_lowercase, trim, trimmed, chars_of};
use crate::tokens::byte_len;
use crate::types::{AgentMessage, AgentMessageV, Content, ContentV, Message, MessageV, cv, mv};

pub use crate::compaction::marker::latest_assistant_text;

verus! {

/// Longest request kept, in UTF-8 bytes.
pub const REQUEST_MAX_BYTES: usize = 200;
/// Completed requests remembered across compactions.
pub const MAX_COMPLETED_REQUESTS: usize = 20;
/// Environment facts remembered across compactions.
pub const MAX_ENV_DISCOVERIES: usize = 10;

/// What compaction carries from one run to the next.
pub struct CompactionState {
    pub file_ops: FileOps,
    pub env_discoveries: Vec<String>,
    pub completed_requests: Vec<String>,
    /// When the state was built (milliseconds since the epoch).
    pub timestamp: u64,
    /// How many compactions built on each other.
    pub generation: u64,
    pub last_summary: Option<String>,
    /// The summary message as it was placed in the history.
    pub context_summary_message: Option<String>,
}

impl CompactionState {
    /// The state before any compaction.
    pub fn initial() -> (r: CompactionState)
        ensures
            r.file_ops@ == crate::compaction::file_ops::no_ops(),
            r.env_discoveries@.len() == 0,
            r.completed_requests@.len() == 0,
            r.timestamp == 0,
            r.generation == 0,
            r.last_summary is None,
            r.context_summary_message is None,
    {
        CompactionState {
            file_ops: FileOps::new(),
            env_discoveries: Vec::new(),
            completed_requests: Vec::new(),
            timestamp: 0,
            generation: 0,
            last_summary: None,
            context_summary_message: None,
        }
    }
}

/// A request as remembered: trimmed, cut to the characters of its first
/// 200 bytes with an ellipsis when longer.
pub open spec fn request_entry(t: Seq<char>) -> Seq<char> {
    if byte_len(t) > REQUEST_MAX_BYTES {
        t.take(fit_prefix(t, REQUEST_MAX_BYTES as int) as int) + "…"@
    } else {
        t
    }
}

/// The requests of the user messages below `k`: their text blocks joined
/// by spaces and trimmed; empty ones and compaction markers skipped.
pub open spec fn requests_of(ms: Seq<AgentMessageV>, k: int) -> Seq<Seq<char>>
    decreases k,
{
    if k <= 0 {
        Seq::empty()
    } else {
        requests_of(ms, k - 1) + match ms[k - 1] {
            AgentMessageV::Llm(MessageV::User { content, .. }) => {
                let t = trim(join(text_parts(content), " "@));
                if t.len() == 0 || is_prefix("[Context compacted"@, t) {
                    Seq::empty()
                } else {
                    seq![request_entry(t)]
                }
            },
            _ => Seq::empty(),
        }
    }
}

fn request_entry_of(t: &str) -> (r: String)
    ensures
        r@ == request_entry(t@),
{
    if t.as_bytes().len() > REQUEST_MAX_BYTES {
        let v = chars_of(t);
        let k = fit_prefix_len(&v, REQUEST_MAX_BYTES);
        let h = take_vec(&v, k);
        let mut s = string_of(&h);
        push_str(&mut s, "…");
        s
    } else {
        owned(t)
    }
}

/// The user requests among `messages`, in order.
pub fn extract_user_requests(messages: &[AgentMessage]) -> (r: Vec<String>)
    ensures
        strs(r@) == requests_of(mv(messages@), messages@.len() as int),
{
    let ghost ms = mv(messages@);
    let mut out: Vec<String> = Vec::new();
    let mut i: usize = 0;
    while i < messages.len()
        invariant
            i <= messages@.len(),
            ms == mv(messages@),
            strs(out@) == requests_of(ms, i as int),
        decreases messages@.len() - i,
    {
        proof {
            assert(ms[i as int] == messages@[i as int]@);
        }
        let ghost po = out@;
        let mut pushed = false;
        if let AgentMessage::Llm(Message::User { content, .. }) = &messages[i] {
            let parts = crate::compaction::metadata::text_parts_of(content.as_slice());
            let joined = join_strings(parts.as_slice(), " ");
            let t = trimmed(joined.as_str());
            if !(t.as_str().unicode_len() == 0 || starts_with(t.as_str(), "[Context compacted")) {
                out.push(request_entry_of(t.as_str()));
                pushed = true;
                proof {
                    assert(strs(out@) =~= strs(po) + seq![request_entry(t@)]);
                }
            }
        }
        proof {
            if !pushed {
                assert(strs(out@) =~= strs(po) + Seq::<Seq<char>>::empty());
            }
        }
        i = i + 1;
    }
    out
}

/// A tool call's file operation: `read`, `write` and `edit` (any case) with
/// a string `path` argument.
pub open spec fn mem_block_ops(ops: FileOpsV, c: ContentV) -> FileOpsV {
    match c {
        ContentV::ToolCall { name, arguments, .. } => match str_member(arguments, "path"@) {
            Some(p) => {
                let n = lowercase(name);
                if n == "read"@ {
                    FileOpsV { read: ins(ops.read, p), ..ops }
                } else if n == "write"@ {
                    FileOpsV { written: ins(ops.written, p), ..ops }
                } else if n == "edit"@ {
                    FileOpsV { edited: ins(ops.edited, p), ..ops }
                } else {
                    ops
                }
            },
            None => ops,
        },
        _ => ops,
    }
}

pub open spec fn mem_blocks_ops(ops: FileOpsV, cs: Seq<ContentV>) -> FileOpsV
    decreases cs.len(),
{
    if cs.len() == 0 {
        ops
    } else {
        mem_block_ops(mem_blocks_ops(ops, cs.drop_last()), cs.last())
    }
}

/// The file operations of the assistant tool calls in `ms`, added to `ops`.
pub open spec fn mem_msgs_ops(ops: FileOpsV, ms: Seq<AgentMessageV>) -> FileOpsV
    decreases ms.len(),
{
    if ms.len() == 0 {
        ops
    } else {
        let prev = mem_msgs_ops(ops, ms.drop_last());
        match ms.last() {
            AgentMessageV::Llm(MessageV::Assistant { content, .. }) => mem_blocks_ops(prev, content),
            _ => prev,
        }
    }
}

fn collect_block_ops(ops: &mut FileOps, content: &[Content])
    ensures
        final(ops)@ == mem_blocks_ops(old(ops)@, cv(content@)),
{
    let mut i: usize = 0;
    while i < content.len()
        invariant
            i <= content@.len(),
            ops@ == mem_blocks_ops(old(ops)@, cv(content@.take(i as int))),
        decreases content@.len() - i,
    {
        proof {
            assert(cv(content@.take(i + 1)).drop_last() =~= cv(content@.take(i as int)));
            assert(cv(content@.take(i + 1)).last() == content@[i as int]@);
        }
        if let Content::ToolCall { name, arguments, .. } = &content[i] {
            if let Some(p) = str_member_of(arguments.as_str(), "path") {
                let n = to_lowercase(name.as_str());
                if str_eq(n.as_str(), "read") {
                    insert_unique(&mut ops.read, p);
                } else if str_eq(n.as_str(), "write") {
                    insert_unique(&mut ops.written, p);
                } else if str_eq(n.as_str(), "edit") {
                    insert_unique(&mut ops.edited, p);
                }
            }
        }
        i = i + 1;
    }
    proof {
        assert(content@.take(content@.len() as int) =~= content@);
    }
}

/// Adds the file operations of the assistant tool calls in `messages`.
pub fn collect_file_ops_from_messages(messages: &[AgentMessage], ops: &mut FileOps)
    ensures
        final(ops)@ == mem_msgs_ops(old(ops)@, mv(messages@)),
{
    let mut i: usize = 0;
    while i < messages.len()
        invariant
            i <= messages@.len(),
            ops@ == mem_msgs_ops(old(ops)@, mv(messages@.take(i as int))),
        decreases messages@.len() - i,
    {
        proof {
            assert(mv(messages@.take(i + 1)).drop_last() =~= mv(messages@.take(i as int)));
            assert(mv(messages@.take(i + 1)).last() == messages@[i as int]@);
        }
        if let AgentMessage::Llm(Message::Assistant { content, .. }) = &messages[i] {
            collect_block_ops(ops, content.as_slice());
        }
        i = i + 1;
    }
    proof {
        assert(messages@.take(messages@.len() as int) =~= messages@);
    }
}

/// The file operations of `messages`, on top of the previous state's.
pub fn extract_file_ops(messages: &[AgentMessage], prev_state: Option<&CompactionState>) -> (r: FileOps)
    ensures
        r@ == mem_msgs_ops(
            match prev_state {
                Some(s) => s.file_ops@,
                None => crate::compaction::file_ops::no_ops(),
            },
            mv(messages@),
        ),
{
    let mut ops = match prev_state {
        Some(s) => s.file_ops.copy(),
        None => FileOps::new(),
    };
    collect_file_ops_from_messages(messages, &mut ops);
    ops
}

/// Environment facts from successful bash probes below `k`, on top of
/// `prev`, each once; the scan stops once ten are known.
pub open spec fn mem_env_fold(ms: Seq<AgentMessageV>, k: int, prev: Seq<Seq<char>>) -> (Seq<Seq<char>>, bool)
    decreases k,
{
    if k <= 0 {
        (prev, false)
    } else {
        let (env, done) = mem_env_fold(ms, k - 1, prev);
        if done {
            (env, done)
        } else {
            match ms[k - 1] {
                AgentMessageV::Llm(MessageV::ToolResult { tool_call_id, tool_name, content, is_error, .. }) => {
                    let cmd = match call_param(ms, k - 1, tool_call_id, "command"@) {
                        Some(c) => c,
                        None => Seq::empty(),
                    };
                    if is_error || (tool_name != "bash"@ && tool_name != "Bash"@) || !env_probe(cmd) {
                        (env, false)
                    } else {
                        match first_fact(first_lines(join(text_parts(content), "\n"@))) {
                            Some(e) => {
                                let env2 = ins(env, e);
                                (env2, env2.len() >= MAX_ENV_DISCOVERIES)
                            },
                            None => (env, false),
                        }
                    }
                },
                _ => (env, false),
            }
        }
    }
}

/// The environment facts of `messages`, on top of the previous state's.
pub fn extract_env_discoveries(messages: &[AgentMessage], prev_state: Option<&CompactionState>) -> (r: Vec<String>)
    ensures
        strs(r@) == mem_env_fold(
            mv(messages@),
            messages@.len() as int,
            match prev_state {
                Some(s) => strs(s.env_discoveries@),
                None => Seq::empty(),
            },
        ).0,
{
    let ghost ms = mv(messages@);
    let ghost p0 = match prev_state {
        Some(s) => strs(s.env_discoveries@),
        None => Seq::<Seq<char>>::empty(),
    };
    let mut env: Vec<String> = match prev_state {
        Some(s) => crate::compaction::file_ops::copy_strings(s.env_discoveries.as_slice()),
        None => Vec::new(),
    };
    let mut i: usize = 0;
    while i < messages.len()
        invariant
            i <= messages@.len(),
            ms == mv(messages@),
            mem_env_fold(ms, i as int, p0) == (strs(env@), false),
            p0 == match prev_state {
                Some(s) => strs(s.env_discoveries@),
                None => Seq::<Seq<char>>::empty(),
            },
        decreases messages@.len() - i,
    {
        proof {
            assert(ms[i as int] == messages@[i as int]@);
        }
        if let AgentMessage::Llm(Message::ToolResult { tool_call_id, tool_name, content, is_error, .. }) = &messages[i] {
            let cmd = match find_tool_call_param(messages, i, tool_call_id.as_str(), "command") {
                Some(c) => c,
                None => String::new(),
            };
            if !*is_error && (str_eq(tool_name.as_str(), "bash") || str_eq(tool_name.as_str(), "Bash"))
                && crate::compaction::marker::is_env_probe(cmd.as_str()) {
                let text = extract_text(content.as_slice());
                if let Some(e) = first_fact_of(text.as_str()) {
                    insert_unique(&mut env, e);
                    if env.len() >= MAX_ENV_DISCOVERIES {
                        proof {
                            assert(mem_env_fold(ms, i as int + 1, p0).0 == strs(env@));
                            lemma_env_done(ms, i as int + 1, messages@.len() as int, p0);
                        }
                        return env;
                    }
                }
            }
        }
        i = i + 1;
    }
    env
}

proof fn lemma_env_done(ms: Seq<AgentMessageV>, k: int, n: int, prev: Seq<Seq<char>>)
    requires
        k <= n,
        mem_env_fold(ms, k, prev).1,
    ensures
        mem_env_fold(ms, n, prev) == mem_env_fold(ms, k, prev),
    decreases n - k,
{
    if k < n {
        lemma_env_done(ms, k, n - 1, prev);
    }
}

/// The requests remembered: the previous ones, then these, the last twenty.
pub open spec fn keep_last(s: Seq<Seq<char>>, n: int) -> Seq<Seq<char>> {
    if s.len() > n {
        s.skip(s.len() - n)
    } else {
        s
    }
}

/// The state built at time `now` from the evicted messages, the prefix of a
/// split turn, and the previous state.
pub fn build_state_at(
    evicted: &[AgentMessage],
    split_prefix: Option<&[AgentMessage]>,
    prev_state: Option<&CompactionState>,
    now: u64,
) -> (r: CompactionState)
    ensures
        r.file_ops@ == ({
            let base = mem_msgs_ops(
                match prev_state {
                    Some(s) => s.file_ops@,
                    None => crate::compaction::file_ops::no_ops(),
                },
                mv(evicted@),
            );
            match split_prefix {
                Some(p) => mem_msgs_ops(base, mv(p@)),
                None => base,
            }
        }),
        strs(r.env_discoveries@) == mem_env_fold(
            mv(evicted@),
            evicted@.len() as int,
            match prev_state {
                Some(s) => strs(s.env_discoveries@),
                None => Seq::empty(),
            },
        ).0,
        strs(r.completed_requests@) == keep_last(
            match prev_state {
                Some(s) => strs(s.completed_requests@),
                None => Seq::empty(),
            } + requests_of(mv(evicted@), evicted@.len() as int),
            MAX_COMPLETED_REQUESTS as int,
        ),
        r.timestamp == now,
        r.generation == match prev_state {
            Some(s) => if s.generation < u64::MAX { (s.generation + 1) as u64 } else { u64::MAX },
            None => 1u64,
        },
        r.last_summary is None,
        r.context_summary_message is None,
{
    let mut file_ops = extract_file_ops(evicted, prev_state);
    let env_discoveries = extract_env_discoveries(evicted, prev_state);
    let completed = extract_user_requests(evicted);
    let mut all: Vec<String> = match prev_state {
        Some(s) => crate::compaction::file_ops::copy_strings(s.completed_requests.as_slice()),
        None => Vec::new(),
    };
    let ghost a = all@;
    let ghost b = completed@;
    let mut completed = completed;
    all.append(&mut completed);
    proof {
        assert(all@ =~= a + b);
        assert(strs(all@) =~= strs(a) + strs(b));
    }
    if all.len() > MAX_COMPLETED_REQUESTS {
        let ghost full = all@;
        let tail = all.split_off(all.len() - MAX_COMPLETED_REQUESTS);
        all = tail;
        proof {
            assert(strs(all@) =~= strs(full).skip(full.len() - MAX_COMPLETED_REQUESTS));
        }
    }
    if let Some(prefix) = split_prefix {
        collect_file_ops_from_messages(prefix, &mut file_ops);
    }
    CompactionState {
        file_ops,
        env_discoveries,
        completed_requests: all,
        timestamp: now,
        generation: match prev_state {
            Some(s) => s.generation.saturating_add(1),
            None => 1,
        },
        last_summary: None,
        context_summary_message: None,
    }
}

/// The state built from the evicted messages, stamped with the clock.
pub fn build_state(
    evicted: &[AgentMessage],
    split_prefix: Option<&[AgentMessage]>,
    prev_state: Option<&CompactionState>,
) -> (r: CompactionState)
    ensures
        strs(r.completed_requests@) == keep_last(
            match prev_state {
                Some(s) => strs(s.completed_requests@),
                None => Seq::empty(),
            } + requests_of(mv(evicted@), evicted@.len() as int),
            MAX_COMPLETED_REQUESTS as int,
        ),
        strs(r.env_discoveries@) == mem_env_fold(
            mv(evicted@),
            evicted@.len() as int,
            match prev_state {
                Some(s) => strs(s.env_discoveries@),
                None => Seq::empty(),
            },
        ).0,
        r.file_ops@ == ({
            let base = mem_msgs_ops(
                match prev_state {
                    Some(s) => s.file_ops@,
                    None => crate::compaction::file_ops::no_ops(),
                },
                mv(evicted@),
            );
            match split_prefix {
                Some(p) => mem_msgs_ops(base, mv(p@)),
                None => base,
            }
        }),
        r.generation == match prev_state {
            Some(s) => if s.generation < u64::MAX { (s.generation + 1) as u64 } else { u64::MAX },
            None => 1u64,
        },
        r.last_summary is None,
        r.context_summary_message is None,
{
    build_state_at(evicted, split_prefix, prev_state, crate::clock::now_or_zero())
}

} // verus!
