//! Planner: decides what a compaction keeps verbatim and what it summarizes.
//!
//! One algorithm serves both frontends: a plain message list (automatic
//! compaction, sequence numbers `index + 1`) and a sequence-numbered
//! transcript (manual compaction). The output is a declarative plan.

use vstd::prelude::*;
use std::ops::Range;
use crate::types::{AgentMessage, AgentMessageV, Content, ContentV, Message, MessageV, is_user, is_assistant, mv};
use crate::tokens::{mtoks, ttoks, message_tokens, total_tokens, lemma_mtoks_nonneg};
use crate::json::{json_member, json_str_value, member, str_value};
use crate::text::str_eq;
use super::file_ops::{FileOps, FileOpsV, ins, insert_unique, no_ops};

verus! {

/// A message-bearing transcript entry with a stable sequence number.
pub struct CompactEntry {
    pub seq: u64,
    pub message: AgentMessage,
}

/// The cut point fell inside a turn rather than at a user message.
pub struct SplitTurn {
    pub turn_start_seq: u64,
    pub cut_seq: u64,
}

/// Declarative plan for one compaction. Ranges index the planned list.
pub struct CompactionPlan {
    /// Entries summarized into the compact summary.
    pub summarize: Range<usize>,
    /// Prefix of a split current turn, summarized separately.
    pub turn_prefix: Option<Range<usize>>,
    /// Index of the first entry retained verbatim.
    pub first_kept: usize,
    /// Sequence number of the first retained entry.
    pub first_kept_seq: u64,
    pub split_turn: Option<SplitTurn>,
    pub tokens_before: usize,
    pub messages_before: usize,
    /// File operations of everything being evicted.
    pub file_ops: FileOps,
}

/// A valid cut point: a user or assistant message, never a tool result.
pub open spec fn is_cut(m: AgentMessageV) -> bool {
    is_user(m) || is_assistant(m)
}

/// First valid cut point at or after `start`.
pub open spec fn snap_from(ms: Seq<AgentMessageV>, start: int) -> Option<int>
    decreases ms.len() - start,
{
    if start < 0 || start >= ms.len() {
        None
    } else if is_cut(ms[start]) {
        Some(start)
    } else {
        snap_from(ms, start + 1)
    }
}

/// Walking back from index `i - 1` with `acc` tokens counted after it: the
/// index of the message whose tokens make the retained tail reach `keep`.
pub open spec fn cross(ms: Seq<AgentMessageV>, boundary: int, keep: int, i: int, acc: int) -> Option<int>
    decreases i - boundary,
{
    if i <= boundary || i > ms.len() {
        None
    } else {
        let a = acc + mtoks(ms[i - 1]);
        if a >= keep {
            Some(i - 1)
        } else {
            cross(ms, boundary, keep, i - 1, a)
        }
    }
}

/// Moves a cut back over UI-only extension entries just before it.
pub open spec fn back_ext(ms: Seq<AgentMessageV>, boundary: int, c: int) -> int
    decreases c - boundary,
{
    if c > boundary && 0 <= c - 1 < ms.len() && ms[c - 1] is Extension {
        back_ext(ms, boundary, c - 1)
    } else {
        c
    }
}

/// First retained index: the cut that keeps about `keep` tokens of recent
/// history, snapped forward to a valid cut point.
pub open spec fn first_kept_of(ms: Seq<AgentMessageV>, boundary: int, keep: int) -> int {
    match snap_from(ms, boundary) {
        None => boundary,
        Some(fc) => {
            let candidate = match cross(ms, boundary, keep, ms.len() as int, 0) {
                None => fc,
                Some(i) => match snap_from(ms, i) {
                    Some(x) => x,
                    None => fc,
                },
            };
            back_ext(ms, boundary, candidate)
        },
    }
}

/// Last user message in `[boundary, hi)`.
pub open spec fn last_user_in(ms: Seq<AgentMessageV>, boundary: int, hi: int) -> Option<int>
    decreases hi - boundary,
{
    if hi <= boundary || hi > ms.len() {
        None
    } else if is_user(ms[hi - 1]) {
        Some(hi - 1)
    } else {
        last_user_in(ms, boundary, hi - 1)
    }
}

/// When the first kept message is not a user message the cut splits a turn:
/// the user message that started it.
pub open spec fn split_start(ms: Seq<AgentMessageV>, boundary: int, first_kept: int) -> Option<int> {
    if first_kept >= ms.len() || is_user(ms[first_kept]) {
        None
    } else {
        last_user_in(ms, boundary, first_kept)
    }
}

/// The index-level plan.
pub ghost struct CoreV {
    pub boundary: int,
    pub summarize_end: int,
    pub first_kept: int,
    pub turn_start: Option<int>,
}

/// The index-level plan, when there is anything to evict.
pub open spec fn core_plan(ms: Seq<AgentMessageV>, boundary: int, keep: int, minimum: int) -> Option<CoreV> {
    if ms.len() == 0 || boundary >= ms.len() {
        None
    } else {
        let fk0 = first_kept_of(ms, boundary, keep);
        let lo = if minimum < ms.len() { minimum } else { ms.len() as int };
        let first_kept = if fk0 >= lo { fk0 } else { lo };
        if first_kept <= boundary {
            None
        } else {
            let turn_start = split_start(ms, boundary, first_kept);
            let summarize_end = match turn_start {
                Some(s) => s,
                None => first_kept,
            };
            let prefix_empty = match turn_start {
                Some(s) => s >= first_kept,
                None => true,
            };
            if summarize_end <= boundary && prefix_empty {
                None
            } else {
                Some(CoreV { boundary, summarize_end, first_kept, turn_start })
            }
        }
    }
}

/// The path a tool call names: `path`, else `file_path`, else `filename`,
/// when that member is a string.
pub open spec fn call_path(arguments: Seq<char>) -> Option<Seq<char>> {
    let m = match json_member(arguments, "path"@) {
        Some(v) => Some(v),
        None => match json_member(arguments, "file_path"@) {
            Some(v) => Some(v),
            None => json_member(arguments, "filename"@),
        },
    };
    match m {
        Some(v) => json_str_value(v),
        None => None,
    }
}

/// One tool call recorded into the file operations (`bash` names a command,
/// not a path, and is not recorded).
pub open spec fn block_ops(ops: FileOpsV, c: ContentV) -> FileOpsV {
    match c {
        ContentV::ToolCall { name, arguments, .. } => match call_path(arguments) {
            Some(p) => if name == "edit"@ {
                FileOpsV { edited: ins(ops.edited, p), ..ops }
            } else if name == "write"@ {
                FileOpsV { written: ins(ops.written, p), ..ops }
            } else if name == "read"@ || name == "grep"@ || name == "glob"@ {
                FileOpsV { read: ins(ops.read, p), ..ops }
            } else {
                ops
            },
            None => ops,
        },
        _ => ops,
    }
}

pub open spec fn blocks_ops(ops: FileOpsV, cs: Seq<ContentV>) -> FileOpsV
    decreases cs.len(),
{
    if cs.len() == 0 {
        ops
    } else {
        block_ops(blocks_ops(ops, cs.drop_last()), cs.last())
    }
}

pub open spec fn msg_ops(ops: FileOpsV, m: AgentMessageV) -> FileOpsV {
    match m {
        AgentMessageV::Llm(MessageV::Assistant { content, .. }) => blocks_ops(ops, content),
        _ => ops,
    }
}

/// File operations of the tool calls in `ms`, added to `ops`.
pub open spec fn msgs_ops(ops: FileOpsV, ms: Seq<AgentMessageV>) -> FileOpsV
    decreases ms.len(),
{
    if ms.len() == 0 {
        ops
    } else {
        msg_ops(msgs_ops(ops, ms.drop_last()), ms.last())
    }
}

pub proof fn lemma_snap_from_range(ms: Seq<AgentMessageV>, start: int)
    ensures
        snap_from(ms, start) matches Some(x) ==> 0 <= start <= x < ms.len() && is_cut(ms[x]),
    decreases ms.len() - start,
{
    if 0 <= start < ms.len() && !is_cut(ms[start]) {
        lemma_snap_from_range(ms, start + 1);
    }
}

pub proof fn lemma_cross_range(ms: Seq<AgentMessageV>, boundary: int, keep: int, i: int, acc: int)
    ensures
        cross(ms, boundary, keep, i, acc) matches Some(x) ==> boundary <= x < i && x < ms.len(),
    decreases i - boundary,
{
    if i > boundary && i <= ms.len() {
        let a = acc + mtoks(ms[i - 1]);
        if a < keep {
            lemma_cross_range(ms, boundary, keep, i - 1, a);
        }
    }
}

pub(crate) fn call_path_of(arguments: &str) -> (r: Option<String>)
    ensures
        match r {
            Some(s) => call_path(arguments@) == Some(s@),
            None => call_path(arguments@) is None,
        },
{
    let m = match member(arguments, "path") {
        Some(v) => Some(v),
        None => match member(arguments, "file_path") {
            Some(v) => Some(v),
            None => member(arguments, "filename"),
        },
    };
    match m {
        Some(v) => str_value(v.as_str()),
        None => None,
    }
}

fn record_block(ops: &mut FileOps, c: &Content)
    ensures
        final(ops)@ == block_ops(old(ops)@, c@),
{
    if let Content::ToolCall { name, arguments, .. } = c {
        if let Some(p) = call_path_of(arguments.as_str()) {
            if str_eq(name.as_str(), "edit") {
                insert_unique(&mut ops.edited, p);
            } else if str_eq(name.as_str(), "write") {
                insert_unique(&mut ops.written, p);
            } else if str_eq(name.as_str(), "read") || str_eq(name.as_str(), "grep") || str_eq(
                name.as_str(),
                "glob",
            ) {
                insert_unique(&mut ops.read, p);
            }
        }
    }
}

/// Records the file operations of one message's tool calls.
pub fn record_message_ops(ops: &mut FileOps, m: &AgentMessage)
    ensures
        final(ops)@ == msg_ops(old(ops)@, m@),
{
    if let AgentMessage::Llm(Message::Assistant { content, .. }) = m {
        let mut i: usize = 0;
        while i < content.len()
            invariant
                i <= content@.len(),
                ops@ == blocks_ops(old(ops)@, crate::types::cv(content@.take(i as int))),
            decreases content@.len() - i,
        {
            proof {
                assert(crate::types::cv(content@.take(i + 1)).drop_last() =~= crate::types::cv(content@.take(i as int)));
                assert(crate::types::cv(content@.take(i + 1)).last() == content@[i as int]@);
            }
            record_block(ops, &content[i]);
            i = i + 1;
        }
        proof {
            assert(content@.take(content@.len() as int) =~= content@);
        }
    }
}

/// File operations of messages `[from, to)`.
pub fn file_ops_of(messages: &[AgentMessage], from: usize, to: usize) -> (r: FileOps)
    requires
        from <= to <= messages@.len(),
    ensures
        r@ == msgs_ops(no_ops(), mv(messages@).subrange(from as int, to as int)),
{
    let mut ops = FileOps::new();
    let mut i: usize = from;
    while i < to
        invariant
            from <= i <= to <= messages@.len(),
            ops@ == msgs_ops(no_ops(), mv(messages@).subrange(from as int, i as int)),
        decreases to - i,
    {
        proof {
            assert(mv(messages@).subrange(from as int, i + 1).drop_last() =~= mv(messages@).subrange(from as int, i as int));
        }
        record_message_ops(&mut ops, &messages[i]);
        i = i + 1;
    }
    ops
}

fn is_cut_point(m: &AgentMessage) -> (r: bool)
    ensures
        r == is_cut(m@),
{
    match m {
        AgentMessage::Llm(Message::User { .. }) => true,
        AgentMessage::Llm(Message::Assistant { .. }) => true,
        _ => false,
    }
}

fn is_user_msg(m: &AgentMessage) -> (r: bool)
    ensures
        r == is_user(m@),
{
    match m {
        AgentMessage::Llm(Message::User { .. }) => true,
        _ => false,
    }
}

/// Nearest valid cut point at or after `start`.
fn snap_forward_from(messages: &[AgentMessage], start: usize) -> (r: Option<usize>)
    ensures
        match r {
            Some(i) => snap_from(mv(messages@), start as int) == Some(i as int),
            None => snap_from(mv(messages@), start as int) is None,
        },
{
    let ghost ms = mv(messages@);
    let mut i = start;
    while i < messages.len()
        invariant
            start <= i,
            ms == mv(messages@),
            snap_from(ms, start as int) == snap_from(ms, i as int),
        decreases messages@.len() - i,
    {
        if is_cut_point(&messages[i]) {
            return Some(i);
        }
        i = i + 1;
    }
    None
}

/// Walks back accumulating tokens until `keep_recent_tokens` is reached,
/// then snaps forward to a valid cut point.
pub(crate) fn find_first_kept(messages: &[AgentMessage], boundary: usize, keep_recent_tokens: usize) -> (r: usize)
    requires
        boundary <= messages@.len(),
    ensures
        r == first_kept_of(mv(messages@), boundary as int, keep_recent_tokens as int),
{
    let ghost ms = mv(messages@);
    let first_cut = match snap_forward_from(messages, boundary) {
        Some(c) => c,
        None => return boundary,
    };
    proof {
        lemma_snap_from_range(ms, boundary as int);
        lemma_cross_range(ms, boundary as int, keep_recent_tokens as int, messages@.len() as int, 0);
    }
    let mut acc: usize = 0;
    let mut i = messages.len();
    let mut crossed: Option<usize> = None;
    while i > boundary && crossed.is_none()
        invariant
            boundary <= i <= messages@.len(),
            ms == mv(messages@),
            match crossed {
                None => {
                    &&& acc < keep_recent_tokens || (i == messages@.len() && acc == 0)
                    &&& cross(ms, boundary as int, keep_recent_tokens as int, messages@.len() as int, 0)
                        == cross(ms, boundary as int, keep_recent_tokens as int, i as int, acc as int)
                },
                Some(c) => cross(ms, boundary as int, keep_recent_tokens as int, messages@.len() as int, 0)
                    == Some(c as int),
            },
        decreases i, if crossed is None { 1int } else { 0int },
    {
        let t = message_tokens(&messages[i - 1]);
        proof {
            lemma_mtoks_nonneg(ms[i - 1]);
        }
        if (acc as u128) + (t as u128) >= keep_recent_tokens as u128 {
            crossed = Some(i - 1);
        } else {
            acc = acc + t;
            i = i - 1;
        }
    }
    let mut candidate = match crossed {
        Some(c) => {
            proof {
                lemma_snap_from_range(ms, c as int);
            }
            match snap_forward_from(messages, c) {
                Some(x) => x,
                None => first_cut,
            }
        },
        None => first_cut,
    };
    while candidate > boundary && matches!(messages[candidate - 1], AgentMessage::Extension(_))
        invariant
            boundary <= candidate <= messages@.len(),
            ms == mv(messages@),
            back_ext(ms, boundary as int, candidate as int) == first_kept_of(ms, boundary as int, keep_recent_tokens as int),
        decreases candidate,
    {
        candidate = candidate - 1;
    }
    candidate
}

} // verus!

verus! {

/// What a plan's fields must hold for the index-level plan `core` over `ms`,
/// whose entries carry sequence numbers `seqs`.
pub open spec fn plan_fields(p: CompactionPlan, ms: Seq<AgentMessageV>, seqs: Seq<u64>, core: CoreV) -> bool {
    let len = ms.len() as int;
    let cut_seq: u64 = if core.first_kept < len {
        seqs[core.first_kept]
    } else if seqs[len - 1] == u64::MAX {
        u64::MAX
    } else {
        (seqs[len - 1] + 1) as u64
    };
    &&& p.summarize.start == core.boundary
    &&& p.summarize.end == core.summarize_end
    &&& match core.turn_start {
        Some(s) => p.turn_prefix matches Some(r) && r.start == s && r.end == core.first_kept,
        None => p.turn_prefix is None,
    }
    &&& p.first_kept == core.first_kept
    &&& p.first_kept_seq == cut_seq
    &&& match core.turn_start {
        Some(s) => p.split_turn matches Some(t) && t.turn_start_seq == seqs[s] && t.cut_seq == cut_seq,
        None => p.split_turn is None,
    }
    &&& p.tokens_before == ttoks(ms)
    &&& p.messages_before == len
    &&& p.file_ops@ == msgs_ops(no_ops(), ms.subrange(core.boundary, core.first_kept))
}

/// The index-level plan when there is anything to evict.
fn plan_core(messages: &[AgentMessage], boundary: usize, keep_recent_tokens: usize, minimum_first_kept: usize) -> (r: Option<(usize, usize, Option<usize>)>)
    ensures
        match r {
            None => core_plan(mv(messages@), boundary as int, keep_recent_tokens as int, minimum_first_kept as int) is None,
            Some((summarize_end, first_kept, turn_start)) => core_plan(mv(messages@), boundary as int, keep_recent_tokens as int, minimum_first_kept as int)
                == Some(CoreV { boundary: boundary as int, summarize_end: summarize_end as int, first_kept: first_kept as int, turn_start: match turn_start { Some(t) => Some(t as int), None => None } }),
        },
{
    let ghost ms = mv(messages@);
    if messages.len() == 0 || boundary >= messages.len() {
        return None;
    }
    let fk0 = find_first_kept(messages, boundary, keep_recent_tokens);
    let lo = if minimum_first_kept < messages.len() { minimum_first_kept } else { messages.len() };
    let first_kept = if fk0 >= lo { fk0 } else { lo };
    if first_kept <= boundary {
        return None;
    }
    let mut turn_start: Option<usize> = None;
    if first_kept < messages.len() && !is_user_msg(&messages[first_kept]) {
        let mut hi = first_kept;
        while hi > boundary && turn_start.is_none()
            invariant
                boundary <= hi <= first_kept,
                first_kept < messages@.len(),
                ms == mv(messages@),
                match turn_start {
                    None => last_user_in(ms, boundary as int, first_kept as int) == last_user_in(ms, boundary as int, hi as int),
                    Some(t) => last_user_in(ms, boundary as int, first_kept as int) == Some(t as int),
                },
            decreases hi, if turn_start is None { 1int } else { 0int },
        {
            if is_user_msg(&messages[hi - 1]) {
                turn_start = Some(hi - 1);
            } else {
                hi = hi - 1;
            }
        }
    }
    let summarize_end = match turn_start {
        Some(s) => s,
        None => first_kept,
    };
    let prefix_empty = match turn_start {
        Some(s) => s >= first_kept,
        None => true,
    };
    if summarize_end <= boundary && prefix_empty {
        return None;
    }
    Some((summarize_end, first_kept, turn_start))
}

pub proof fn lemma_last_user_range(ms: Seq<AgentMessageV>, boundary: int, hi: int)
    ensures
        last_user_in(ms, boundary, hi) matches Some(x) ==> boundary <= x < hi && is_user(ms[x]),
    decreases hi - boundary,
{
    if hi > boundary && hi <= ms.len() && !is_user(ms[hi - 1]) {
        lemma_last_user_range(ms, boundary, hi - 1);
    }
}

pub proof fn lemma_first_kept_bounds(ms: Seq<AgentMessageV>, boundary: int, keep: int)
    requires
        0 <= boundary <= ms.len(),
    ensures
        boundary <= first_kept_of(ms, boundary, keep) <= ms.len(),
{
    lemma_snap_from_range(ms, boundary);
    lemma_cross_range(ms, boundary, keep, ms.len() as int, 0);
    match cross(ms, boundary, keep, ms.len() as int, 0) {
        Some(i) => lemma_snap_from_range(ms, i),
        None => {},
    }
    match snap_from(ms, boundary) {
        Some(fc) => {
            let candidate = match cross(ms, boundary, keep, ms.len() as int, 0) {
                None => fc,
                Some(i) => match snap_from(ms, i) {
                    Some(x) => x,
                    None => fc,
                },
            };
            lemma_back_ext_bounds(ms, boundary, candidate);
        },
        None => {},
    }
}

pub proof fn lemma_back_ext_bounds(ms: Seq<AgentMessageV>, boundary: int, c: int)
    requires
        boundary <= c <= ms.len(),
    ensures
        boundary <= back_ext(ms, boundary, c) <= c,
    decreases c - boundary,
{
    if c > boundary && 0 <= c - 1 < ms.len() && ms[c - 1] is Extension {
        lemma_back_ext_bounds(ms, boundary, c - 1);
    }
}

/// Builds the plan record from the index-level plan.
fn assemble(messages: &[AgentMessage], seqs: &[u64], boundary: usize, summarize_end: usize, first_kept: usize, turn_start: Option<usize>) -> (p: CompactionPlan)
    requires
        seqs@.len() == messages@.len(),
        messages@.len() > 0,
        boundary <= summarize_end <= first_kept <= messages@.len(),
        turn_start matches Some(t) ==> t < first_kept,
    ensures
        plan_fields(p, mv(messages@), seqs@, CoreV { boundary: boundary as int, summarize_end: summarize_end as int, first_kept: first_kept as int, turn_start: match turn_start { Some(t) => Some(t as int), None => None } }),
{
    let len = messages.len();
    let cut_seq: u64 = if first_kept < len { seqs[first_kept] } else { seqs[len - 1].saturating_add(1) };
    let tokens_before = total_tokens(messages);
    let file_ops = file_ops_of(messages, boundary, first_kept);
    let (turn_prefix, split_turn) = match turn_start {
        Some(s) => (Some(s..first_kept), Some(SplitTurn { turn_start_seq: seqs[s], cut_seq })),
        None => (None, None),
    };
    CompactionPlan {
        summarize: boundary..summarize_end,
        turn_prefix,
        first_kept,
        first_kept_seq: cut_seq,
        split_turn,
        tokens_before,
        messages_before: len,
        file_ops,
    }
}

/// Sequence numbers `index + 1` for a plain message list.
pub open spec fn index_seqs(n: int) -> Seq<u64> {
    Seq::new(n as nat, |i: int| (i + 1) as u64)
}

fn make_index_seqs(n: usize) -> (r: Vec<u64>)
    ensures
        r@ == index_seqs(n as int),
{
    let mut r: Vec<u64> = Vec::new();
    let mut i: usize = 0;
    while i < n
        invariant
            i <= n,
            r@ == index_seqs(i as int),
        decreases n - i,
    {
        r.push((i as u64) + 1);
        proof {
            assert(r@ =~= index_seqs(i + 1));
        }
        i = i + 1;
    }
    r
}

/// What planning returns for `ms` with entries numbered `seqs`.
pub open spec fn planned(p: Option<CompactionPlan>, ms: Seq<AgentMessageV>, seqs: Seq<u64>, boundary: int, keep: int, minimum: int) -> bool {
    match core_plan(ms, boundary, keep, minimum) {
        None => p is None,
        Some(core) => p matches Some(plan) && plan_fields(plan, ms, seqs, core),
    }
}

fn plan_with(messages: &[AgentMessage], seqs: &[u64], boundary: usize, keep_recent_tokens: usize, minimum_first_kept: usize) -> (r: Option<CompactionPlan>)
    requires
        seqs@.len() == messages@.len(),
    ensures
        planned(r, mv(messages@), seqs@, boundary as int, keep_recent_tokens as int, minimum_first_kept as int),
{
    match plan_core(messages, boundary, keep_recent_tokens, minimum_first_kept) {
        None => None,
        Some((summarize_end, first_kept, turn_start)) => {
            proof {
                let ms = mv(messages@);
                lemma_first_kept_bounds(ms, boundary as int, keep_recent_tokens as int);
                lemma_last_user_range(ms, boundary as int, first_kept as int);
            }
            Some(assemble(messages, seqs, boundary, summarize_end, first_kept, turn_start))
        },
    }
}

/// Plans compaction of a plain message list (automatic agent-loop path);
/// sequence numbers are `index + 1`.
pub fn plan_messages(messages: &[AgentMessage], keep_recent_tokens: usize) -> (r: Option<CompactionPlan>)
    ensures
        planned(r, mv(messages@), index_seqs(messages@.len() as int), 0, keep_recent_tokens as int, 0),
{
    plan_messages_from_boundary(messages, keep_recent_tokens, 0)
}

/// Plans automatic compaction while forcing the retained suffix to start no
/// earlier than `minimum_first_kept` (overflow recovery: the triggering
/// request is known to be too large).
pub fn plan_messages_from_boundary(messages: &[AgentMessage], keep_recent_tokens: usize, minimum_first_kept: usize) -> (r: Option<CompactionPlan>)
    ensures
        planned(r, mv(messages@), index_seqs(messages@.len() as int), 0, keep_recent_tokens as int, minimum_first_kept as int),
{
    let seqs = make_index_seqs(messages.len());
    plan_with(messages, &seqs, 0, keep_recent_tokens, minimum_first_kept)
}

/// The messages of a transcript.
pub open spec fn entry_msgs(es: Seq<CompactEntry>) -> Seq<AgentMessageV> {
    es.map_values(|e: CompactEntry| e.message@)
}

/// The sequence numbers of a transcript.
pub open spec fn entry_seqs(es: Seq<CompactEntry>) -> Seq<u64> {
    es.map_values(|e: CompactEntry| e.seq)
}

/// Index of the first entry at or after `boundary_seq` (0 when none).
pub open spec fn boundary_index(seqs: Seq<u64>, boundary_seq: Option<u64>) -> int {
    match boundary_seq {
        None => 0,
        Some(b) => if exists|i: int| 0 <= i < seqs.len() && seqs[i] >= b {
            choose|i: int| 0 <= i < seqs.len() && seqs[i] >= b && forall|j: int| 0 <= j < i ==> seqs[j] < b
        } else {
            0
        },
    }
}

/// Plans compaction over a sequence-numbered transcript. Entries before
/// `boundary_seq` (the previous compaction's first kept entry) are already
/// represented by the previous summary.
pub fn plan_compaction(entries: &[CompactEntry], boundary_seq: Option<u64>, keep_recent_tokens: usize) -> (r: Option<CompactionPlan>)
    ensures
        planned(r, entry_msgs(entries@), entry_seqs(entries@), boundary_index(entry_seqs(entries@), boundary_seq), keep_recent_tokens as int, boundary_index(entry_seqs(entries@), boundary_seq)),
{
    let ghost seqv = entry_seqs(entries@);
    let mut messages: Vec<AgentMessage> = Vec::new();
    let mut seqs: Vec<u64> = Vec::new();
    let mut i: usize = 0;
    while i < entries.len()
        invariant
            i <= entries@.len(),
            mv(messages@) == entry_msgs(entries@.take(i as int)),
            seqs@ == entry_seqs(entries@.take(i as int)),
        decreases entries@.len() - i,
    {
        let ghost prev = messages@;
        messages.push(entries[i].message.clone());
        seqs.push(entries[i].seq);
        proof {
            assert(mv(messages@) =~= mv(prev).push(entries@[i as int].message@));
            assert(entry_msgs(entries@.take(i + 1)) =~= entry_msgs(entries@.take(i as int)).push(entries@[i as int].message@));
            assert(mv(messages@) =~= entry_msgs(entries@.take(i + 1)));
            assert(seqs@ =~= entry_seqs(entries@.take(i + 1)));
        }
        i = i + 1;
    }
    proof {
        assert(entries@.take(entries@.len() as int) =~= entries@);
    }
    let mut boundary: usize = 0;
    match boundary_seq {
        Some(b) => {
            let mut k: usize = 0;
            let mut found = false;
            while k < seqs.len() && !found
                invariant
                    k <= seqs@.len(),
                    seqs@ == seqv,
                    !found ==> forall|j: int| 0 <= j < k ==> seqv[j] < b,
                    found ==> k < seqs@.len() && seqv[k as int] >= b && forall|j: int| 0 <= j < k ==> seqv[j] < b,
                decreases seqs@.len() - k, if found { 0int } else { 1int },
            {
                if seqs[k] >= b {
                    found = true;
                } else {
                    k = k + 1;
                }
            }
            if found {
                boundary = k;
                proof {
                    let w = choose|i: int| 0 <= i < seqv.len() && seqv[i] >= b && forall|j: int| 0 <= j < i ==> seqv[j] < b;
                    if w < k {
                    } else if w > k {
                        assert(seqv[k as int] < b);
                    }
                }
            } else {
                proof {
                    assert(!exists|i: int| 0 <= i < seqv.len() && seqv[i] >= b);
                }
            }
        },
        None => {},
    }
    plan_with(&messages, &seqs, boundary, keep_recent_tokens, boundary)
}

} // verus!
