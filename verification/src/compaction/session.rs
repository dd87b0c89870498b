//! Session-entry aware compaction planning.
//!
//! Callers provide a linear stream of entries with stable sequence numbers
//! and already-converted messages. The planner returns a declarative
//! boundary (`first_kept_seq`) instead of a compacted snapshot.

use vstd::prelude::*;
use std::ops::Range;
use crate::compaction::passes::shrink::pass::sat_sub;
use crate::text::str_eq;
use crate::tokens::{lemma_mtoks_nonneg, message_tokens, mtoks, sat, total_tokens, ttoks};
use crate::types::{AgentMessage, AgentMessageV, Content, ContentV, Message, MessageV, is_user, mv};
use super::file_ops::{FileOps, FileOpsV, ins, insert_unique, no_ops};
use super::plan::{call_path, call_path_of, is_cut, lemma_last_user_range, snap_from, split_start, last_user_in};

pub use super::plan::CompactEntry;

verus! {

/// Declarative plan for a session compaction.
pub struct SessionCompactPlan {
    /// Entries summarized into the compact summary.
    pub summarize: Range<usize>,
    /// Prefix of the retained current turn, summarized separately when the
    /// cut point splits a turn.
    pub turn_prefix: Option<Range<usize>>,
    /// Index of the first entry retained verbatim in the future context view.
    pub first_kept: usize,
    pub first_kept_seq: u64,
    pub split_turn: Option<SessionSplitTurn>,
    pub tokens_before: usize,
    pub messages_before: usize,
    pub file_ops: FileOps,
}

pub struct SessionSplitTurn {
    pub turn_start_seq: u64,
    pub cut_seq: u64,
}

pub open spec fn entry_msgs(es: Seq<CompactEntry>) -> Seq<AgentMessageV> {
    es.map_values(|e: CompactEntry| e.message@)
}

/// Index of the first entry at or after `k` whose sequence number reaches
/// `seq`.
pub open spec fn first_at_least(es: Seq<CompactEntry>, seq: u64, k: int) -> Option<int>
    decreases es.len() - k,
{
    if k < 0 || k >= es.len() {
        None
    } else if es[k].seq >= seq {
        Some(k)
    } else {
        first_at_least(es, seq, k + 1)
    }
}

/// Where summarizing starts: at the first entry the previous compaction
/// kept, else at the start.
pub open spec fn session_boundary(es: Seq<CompactEntry>, boundary_seq: Option<u64>) -> int {
    match boundary_seq {
        Some(s) => match first_at_least(es, s, 0) {
            Some(p) => p,
            None => 0,
        },
        None => 0,
    }
}

/// Walking back from index `i - 1` with `acc` tokens counted after it (the
/// count saturating): the first index whose tail holds at least `keep`
/// tokens and `min_messages` messages.
pub open spec fn walk_back(ms: Seq<AgentMessageV>, boundary: int, keep: int, min_messages: int, i: int, acc: int) -> Option<int>
    decreases i - boundary,
{
    if i <= boundary || i > ms.len() {
        None
    } else {
        let a = sat(acc + mtoks(ms[i - 1]));
        if a >= keep && ms.len() - (i - 1) >= min_messages {
            Some(i - 1)
        } else {
            walk_back(ms, boundary, keep, min_messages, i - 1, a)
        }
    }
}

/// First retained index: where the tail reaches both minimums, snapped
/// forward to a valid cut point, kept within `[boundary, len - 1]`.
pub open spec fn session_first_kept(ms: Seq<AgentMessageV>, boundary: int, keep: int, min_messages: int) -> int {
    let len = ms.len() as int;
    let candidate = match walk_back(ms, boundary, keep, min_messages, len, 0) {
        Some(i) => match snap_from(ms, i) {
            Some(x) => x,
            None => len - 1,
        },
        None => len,
    };
    let c = if candidate > boundary { candidate } else { boundary };
    let last = sat_sub(len, 1);
    if c < last { c } else { last }
}

/// One tool call recorded into the session's file operations: `edit`,
/// `write` and `bash` edit their path, `read`, `grep` and `glob` read it.
pub open spec fn session_block_ops(ops: FileOpsV, c: ContentV) -> FileOpsV {
    match c {
        ContentV::ToolCall { name, arguments, .. } => match call_path(arguments) {
            Some(p) => if name == "edit"@ || name == "write"@ || name == "bash"@ {
                FileOpsV { edited: ins(ops.edited, p), ..ops }
            } else if name == "read"@ || name == "grep"@ || name == "glob"@ {
                FileOpsV { read: ins(ops.read, p), ..ops }
            } else {
                ops
            },
            None => ops,
        },
        _ => ops,
    }
}

pub open spec fn session_blocks_ops(ops: FileOpsV, cs: Seq<ContentV>) -> FileOpsV
    decreases cs.len(),
{
    if cs.len() == 0 {
        ops
    } else {
        session_block_ops(session_blocks_ops(ops, cs.drop_last()), cs.last())
    }
}

pub open spec fn session_msgs_ops(ops: FileOpsV, ms: Seq<AgentMessageV>) -> FileOpsV
    decreases ms.len(),
{
    if ms.len() == 0 {
        ops
    } else {
        let prev = session_msgs_ops(ops, ms.drop_last());
        match ms.last() {
            AgentMessageV::Llm(MessageV::Assistant { content, .. }) => session_blocks_ops(prev, content),
            _ => prev,
        }
    }
}

/// The index-level session plan: (boundary, summarize end, first kept, turn start).
pub open spec fn session_core(es: Seq<CompactEntry>, boundary_seq: Option<u64>, keep: int, min_messages: int) -> Option<
    (int, int, int, Option<int>),
> {
    let ms = entry_msgs(es);
    if es.len() == 0 {
        None
    } else {
        let boundary = session_boundary(es, boundary_seq);
        if boundary >= es.len() {
            None
        } else {
            let first_kept = session_first_kept(ms, boundary, keep, min_messages);
            if first_kept <= boundary {
                None
            } else {
                let turn_start = split_start(ms, boundary, first_kept);
                let summarize_end = match turn_start {
                    Some(s) => s,
                    None => first_kept,
                };
                if summarize_end <= boundary && turn_start is None {
                    None
                } else {
                    Some((boundary, summarize_end, first_kept, turn_start))
                }
            }
        }
    }
}

fn boundary_of(entries: &[CompactEntry], boundary_seq: Option<u64>) -> (r: usize)
    ensures
        r == session_boundary(entries@, boundary_seq),
        entries@.len() > 0 ==> r < entries@.len(),
{
    match boundary_seq {
        None => 0,
        Some(seq) => {
            let mut k: usize = 0;
            while k < entries.len()
                invariant
                    k <= entries@.len(),
                    boundary_seq == Some(seq),
                    first_at_least(entries@, seq, 0) == first_at_least(entries@, seq, k as int),
                decreases entries@.len() - k,
            {
                if entries[k].seq >= seq {
                    proof {
                        assert(first_at_least(entries@, seq, k as int) == Some(k as int));
                    }
                    return k;
                }
                k = k + 1;
            }
            0
        },
    }
}

fn is_cut_message(m: &AgentMessage) -> (r: bool)
    ensures
        r == is_cut(m@),
{
    match m {
        AgentMessage::Llm(Message::User { .. }) => true,
        AgentMessage::Llm(Message::Assistant { .. }) => true,
        _ => false,
    }
}

fn snap_forward(entries: &[CompactEntry], start: usize) -> (r: usize)
    requires
        start < entries@.len(),
    ensures
        r == match snap_from(entry_msgs(entries@), start as int) {
            Some(x) => x,
            None => entries@.len() - 1,
        },
{
    let ghost ms = entry_msgs(entries@);
    let mut i = start;
    while i < entries.len()
        invariant
            start <= i <= entries@.len(),
            ms == entry_msgs(entries@),
            snap_from(ms, start as int) == snap_from(ms, i as int),
        decreases entries@.len() - i,
    {
        if is_cut_message(&entries[i].message) {
            return i;
        }
        i = i + 1;
    }
    entries.len() - 1
}

fn first_kept_index(entries: &[CompactEntry], boundary: usize, keep_recent_tokens: usize, keep_recent_min_messages: usize) -> (r: usize)
    requires
        boundary < entries@.len(),
    ensures
        r == session_first_kept(entry_msgs(entries@), boundary as int, keep_recent_tokens as int, keep_recent_min_messages as int),
{
    let ghost ms = entry_msgs(entries@);
    let len = entries.len();
    let mut accumulated: usize = 0;
    let mut candidate: usize = len;
    let mut i: usize = len;
    while i > boundary
        invariant_except_break
            candidate == len,
        invariant
            boundary <= i <= len,
            len == entries@.len(),
            ms == entry_msgs(entries@),
            walk_back(ms, boundary as int, keep_recent_tokens as int, keep_recent_min_messages as int, len as int, 0)
                == walk_back(ms, boundary as int, keep_recent_tokens as int, keep_recent_min_messages as int, i as int, accumulated as int),
        ensures
            candidate == match walk_back(ms, boundary as int, keep_recent_tokens as int, keep_recent_min_messages as int, len as int, 0) {
                Some(k) => match snap_from(ms, k) {
                    Some(x) => x,
                    None => len - 1,
                },
                None => len as int,
            },
        decreases i,
    {
        proof {
            lemma_mtoks_nonneg(ms[i - 1]);
        }
        accumulated = accumulated.saturating_add(message_tokens(&entries[i - 1].message));
        if accumulated >= keep_recent_tokens && len - (i - 1) >= keep_recent_min_messages {
            candidate = snap_forward(entries, i - 1);
            break;
        }
        i = i - 1;
    }
    let c = if candidate > boundary { candidate } else { boundary };
    let last = len.saturating_sub(1);
    if c < last { c } else { last }
}

fn last_user_before(entries: &[CompactEntry], boundary: usize, first_kept: usize) -> (r: Option<usize>)
    requires
        boundary <= first_kept <= entries@.len(),
    ensures
        r == match last_user_in(entry_msgs(entries@), boundary as int, first_kept as int) {
            Some(x) => Some(x as usize),
            None => None::<usize>,
        },
        r matches Some(x) ==> boundary <= x < first_kept,
{
    let ghost ms = entry_msgs(entries@);
    let mut hi = first_kept;
    while hi > boundary
        invariant
            boundary <= hi <= first_kept <= entries@.len(),
            ms == entry_msgs(entries@),
            last_user_in(ms, boundary as int, first_kept as int) == last_user_in(ms, boundary as int, hi as int),
        decreases hi,
    {
        if let AgentMessage::Llm(Message::User { .. }) = &entries[hi - 1].message {
            return Some(hi - 1);
        }
        hi = hi - 1;
    }
    None
}

fn session_ops(entries: &[CompactEntry], from: usize, to: usize) -> (r: FileOps)
    requires
        from <= to <= entries@.len(),
    ensures
        r@ == session_msgs_ops(no_ops(), entry_msgs(entries@).subrange(from as int, to as int)),
{
    let ghost ms = entry_msgs(entries@);
    let mut ops = FileOps::new();
    let mut i = from;
    while i < to
        invariant
            from <= i <= to <= entries@.len(),
            ms == entry_msgs(entries@),
            ops@ == session_msgs_ops(no_ops(), ms.subrange(from as int, i as int)),
        decreases to - i,
    {
        proof {
            assert(ms.subrange(from as int, i + 1).drop_last() =~= ms.subrange(from as int, i as int));
            assert(ms.subrange(from as int, i + 1).last() == entries@[i as int].message@);
        }
        if let AgentMessage::Llm(Message::Assistant { content, .. }) = &entries[i].message {
            let ghost start = ops@;
            let mut j: usize = 0;
            while j < content.len()
                invariant
                    j <= content@.len(),
                    ops@ == session_blocks_ops(start, crate::types::cv(content@.take(j as int))),
                decreases content@.len() - j,
            {
                proof {
                    assert(crate::types::cv(content@.take(j + 1)).drop_last() =~= crate::types::cv(content@.take(j as int)));
                    assert(crate::types::cv(content@.take(j + 1)).last() == content@[j as int]@);
                }
                if let Content::ToolCall { name, arguments, .. } = &content[j] {
                    if let Some(p) = call_path_of(arguments.as_str()) {
                        if str_eq(name.as_str(), "edit") || str_eq(name.as_str(), "write") || str_eq(name.as_str(), "bash") {
                            insert_unique(&mut ops.edited, p);
                        } else if str_eq(name.as_str(), "read") || str_eq(name.as_str(), "grep") || str_eq(name.as_str(), "glob") {
                            insert_unique(&mut ops.read, p);
                        }
                    }
                }
                j = j + 1;
            }
            proof {
                assert(content@.take(content@.len() as int) =~= content@);
            }
        }
        i = i + 1;
    }
    ops
}

/// Plans compaction over a sequence-numbered session context.
///
/// `boundary_seq` is the latest compact entry's first-kept sequence number,
/// if any. Entries before it are already represented by the previous
/// summary and are not summarized again. `None` when there is nothing new
/// to summarize.
pub fn plan_session_compaction(
    entries: &[CompactEntry],
    boundary_seq: Option<u64>,
    keep_recent_tokens: usize,
    keep_recent_min_messages: usize,
) -> (r: Option<SessionCompactPlan>)
    ensures
        match session_core(entries@, boundary_seq, keep_recent_tokens as int, keep_recent_min_messages as int) {
            None => r is None,
            Some((boundary, summarize_end, first_kept, turn_start)) => r matches Some(p) && {
                &&& p.summarize.start == boundary
                &&& p.summarize.end == summarize_end
                &&& p.turn_prefix == match turn_start {
                    Some(s) => Some(Range { start: s as usize, end: first_kept as usize }),
                    None => None::<Range<usize>>,
                }
                &&& p.first_kept == first_kept
                &&& p.first_kept_seq == entries@[first_kept].seq
                &&& p.split_turn == match turn_start {
                    Some(s) => Some(SessionSplitTurn { turn_start_seq: entries@[s].seq, cut_seq: entries@[first_kept].seq }),
                    None => None::<SessionSplitTurn>,
                }
                &&& p.tokens_before == ttoks(entry_msgs(entries@))
                &&& p.messages_before == entries@.len()
                &&& p.file_ops@ == session_msgs_ops(no_ops(), entry_msgs(entries@).subrange(boundary, summarize_end))
            },
        },
{
    let ghost ms = entry_msgs(entries@);
    if entries.len() == 0 {
        return None;
    }
    let boundary = boundary_of(entries, boundary_seq);
    if boundary >= entries.len() {
        return None;
    }
    let first_kept = first_kept_index(entries, boundary, keep_recent_tokens, keep_recent_min_messages);
    if first_kept <= boundary {
        return None;
    }
    proof {
        lemma_last_user_range(ms, boundary as int, first_kept as int);
    }
    let turn_start: Option<usize> = if first_kept >= entries.len() || is_user_entry(&entries[first_kept].message) {
        None
    } else {
        last_user_before(entries, boundary, first_kept)
    };
    proof {
        assert(ms[first_kept as int] == entries@[first_kept as int].message@);
        assert(turn_start == match split_start(ms, boundary as int, first_kept as int) {
            Some(x) => Some(x as usize),
            None => None::<usize>,
        });
    }
    let summarize_end = match turn_start {
        Some(s) => s,
        None => first_kept,
    };
    if summarize_end <= boundary && turn_start.is_none() {
        return None;
    }
    let file_ops = session_ops(entries, boundary, summarize_end);
    let mut messages: Vec<AgentMessage> = Vec::new();
    let mut k: usize = 0;
    while k < entries.len()
        invariant
            k <= entries@.len(),
            ms == entry_msgs(entries@),
            mv(messages@) == ms.take(k as int),
        decreases entries@.len() - k,
    {
        let ghost before = messages@;
        messages.push(entries[k].message.clone());
        proof {
            assert(mv(messages@) =~= mv(before).push(ms[k as int]));
            assert(ms.take(k + 1) =~= ms.take(k as int).push(ms[k as int]));
        }
        k = k + 1;
    }
    proof {
        assert(ms.take(k as int) =~= ms);
    }
    let tokens_before = total_tokens(messages.as_slice());
    let split_turn = match turn_start {
        Some(s) => Some(SessionSplitTurn { turn_start_seq: entries[s].seq, cut_seq: entries[first_kept].seq }),
        None => None,
    };
    let turn_prefix = match turn_start {
        Some(s) => Some(Range { start: s, end: first_kept }),
        None => None,
    };
    proof {
        let core = session_core(entries@, boundary_seq, keep_recent_tokens as int, keep_recent_min_messages as int);
        assert(core == Some((boundary as int, summarize_end as int, first_kept as int, match turn_start {
            Some(x) => Some(x as int),
            None => None::<int>,
        })));
    }
    Some(SessionCompactPlan {
        summarize: Range { start: boundary, end: summarize_end },
        turn_prefix,
        first_kept,
        first_kept_seq: entries[first_kept].seq,
        split_turn,
        tokens_before,
        messages_before: entries.len(),
        file_ops,
    })
}

fn is_user_entry(m: &AgentMessage) -> (r: bool)
    ensures
        r == is_user(m@),
{
    match m {
        AgentMessage::Llm(Message::User { .. }) => true,
        _ => false,
    }
}

proof fn lemma_first_at_least_range(es: Seq<CompactEntry>, seq: u64, k: int)
    ensures
        first_at_least(es, seq, k) matches Some(x) ==> k <= x < es.len() && es[x].seq >= seq,
    decreases es.len() - k,
{
    if 0 <= k < es.len() && es[k].seq < seq {
        lemma_first_at_least_range(es, seq, k + 1);
    }
}

/// A session plan summarizes only what the previous compaction did not:
/// it starts at the first entry at or after the previous boundary, ends
/// before the first kept entry, and a split turn's prefix starts at a user
/// message between the two.
pub proof fn lemma_session_plan_bounds(es: Seq<CompactEntry>, boundary_seq: Option<u64>, keep: int, min_messages: int)
    ensures
        session_core(es, boundary_seq, keep, min_messages) matches Some((b, e, fk, ts)) ==> {
            &&& 0 <= b <= e <= fk < es.len()
            &&& b < fk
            &&& (boundary_seq matches Some(s) ==> (b > 0 ==> es[b].seq >= s))
            &&& (ts matches Some(t) ==> t == e && is_user(entry_msgs(es)[t]))
        },
{
    if let Some(s) = boundary_seq {
        lemma_first_at_least_range(es, s, 0);
    }
    let ms = entry_msgs(es);
    if es.len() > 0 {
        let b = session_boundary(es, boundary_seq);
        if b < es.len() {
            let fk = session_first_kept(ms, b, keep, min_messages);
            lemma_last_user_range(ms, b, fk);
        }
    }
}

} // verus!
