//! Planner over a plain message list: where the retained tail starts, and
//! whether the cut splits a turn.

use vstd::prelude::*;
use std::ops::Range;
use crate::types::{AgentMessage, Message, mv};
use super::config::CompactionConfig;
use super::plan::{find_first_kept, first_kept_of, lemma_last_user_range, last_user_in, split_start};

verus! {

/// The cut falls inside a turn: the user message that started it, and the
/// first retained message.
pub struct SplitTurn {
    pub turn_start: usize,
    pub cut_at: usize,
}

/// Which messages a compaction evicts and which it keeps.
pub struct CompactionPlan {
    pub evict_zone: Range<usize>,
    pub retained_tail: Range<usize>,
    pub split_turn: Option<SplitTurn>,
}

/// Plans a compaction: the retained tail holds about `keep_recent_tokens`
/// of recent history from a valid cut point on (with the UI-only entries
/// just before it); everything before it is evicted. `None` when nothing
/// would be evicted.
pub fn plan(messages: &[AgentMessage], config: &CompactionConfig) -> (r: Option<CompactionPlan>)
    ensures
        ({
            let ms = mv(messages@);
            let t = first_kept_of(ms, 0, config.keep_recent_tokens as int);
            if ms.len() == 0 || t == 0 {
                r is None
            } else {
                r matches Some(p) && p.evict_zone == (Range { start: 0usize, end: t as usize }) && p.retained_tail == (Range {
                    start: t as usize,
                    end: ms.len() as usize,
                }) && p.split_turn == match split_start(ms, 0, t) {
                    Some(s) => Some(SplitTurn { turn_start: s as usize, cut_at: t as usize }),
                    None => None::<SplitTurn>,
                }
            }
        }),
{
    let ghost ms = mv(messages@);
    let len = messages.len();
    if len == 0 {
        return None;
    }
    let tail_start = find_first_kept(messages, 0, config.keep_recent_tokens);
    if tail_start == 0 {
        return None;
    }
    proof {
        super::plan::lemma_first_kept_bounds(ms, 0, config.keep_recent_tokens as int);
        lemma_last_user_range(ms, 0, tail_start as int);
    }
    let split_turn = if tail_start >= len {
        None
    } else if let AgentMessage::Llm(Message::User { .. }) = &messages[tail_start] {
        None
    } else {
        let mut i = tail_start;
        let mut found: Option<usize> = None;
        while i > 0
            invariant_except_break
                found is None,
            invariant
                i <= tail_start < len,
                len == messages@.len(),
                ms == mv(messages@),
                last_user_in(ms, 0, tail_start as int) == last_user_in(ms, 0, i as int),
            ensures
                match found {
                    Some(x) => last_user_in(ms, 0, tail_start as int) == Some(x as int),
                    None => last_user_in(ms, 0, tail_start as int) is None,
                },
            decreases i,
        {
            if let AgentMessage::Llm(Message::User { .. }) = &messages[i - 1] {
                found = Some(i - 1);
                break;
            }
            i = i - 1;
        }
        match found {
            Some(s) => Some(SplitTurn { turn_start: s, cut_at: tail_start }),
            None => None,
        }
    };
    Some(CompactionPlan { evict_zone: Range { start: 0, end: tail_start }, retained_tail: Range { start: tail_start, end: len }, split_turn })
}

} // verus!
