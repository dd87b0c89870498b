//! The pipeline: runs the passes in order, tracking the estimate between
//! them, then restores tool call/result pairing.

use vstd::prelude::*;
use crate::clock::now_or_zero;
use crate::compaction::config::CompactionConfig;
use crate::compaction::pass::{Pass, PassContext, PassLevel, config_ok, level_rank};
use crate::compaction::passes::collapse::{collapse_at, collapse_spec};
use crate::compaction::passes::evict::pass::{evict_at, evict_spec};
use crate::compaction::passes::microcompact::{Microcompact, micro_spec};
use crate::compaction::passes::reclaim::{Reclaim, reclaim_spec};
use crate::compaction::passes::shrink::pass::{Shrink, sat_sub, shrink_should_run, shrink_spec};
use crate::compaction::pressure::{Pressure, pressure_spec};
use crate::compaction::types::{
    ActionV, CompactionAction, CompactionResult, StatsInput, action_counts, av, build_stats, collect_tool_details, dv,
    saved, sort_desc, tool_details_in_order,
};
use crate::sanitize::{lemma_sanitized_is_paired, paired, sanitize_tool_pairs, sanitized};
use crate::tokens::{sat, total_tokens, ttoks};
use crate::types::{AgentMessage, AgentMessageV, mv};

verus! {

/// Tokens freed by a list of actions (saturating).
pub open spec fn saved_sat(s: Seq<ActionV>) -> int
    decreases s.len(),
{
    if s.len() == 0 {
        0
    } else {
        sat(saved_sat(s.drop_last()) + saved(s.last()))
    }
}

/// The state carried between passes: the messages, the running estimate,
/// the highest level that acted, and the actions so far.
pub ghost struct PipeState {
    pub ms: Seq<AgentMessageV>,
    pub est: int,
    pub level: int,
    pub actions: Seq<ActionV>,
}

/// Whether pass `k` runs at pressure `p`.
pub open spec fn pass_should(k: PassLevel, c: CompactionConfig, p: Pressure) -> bool {
    match k {
        PassLevel::Reclaim => true,
        PassLevel::Shrink => shrink_should_run(c, p),
        PassLevel::Microcompact => p.compactable_tool_result_count >= c.microcompact_trigger,
        PassLevel::Collapse => p.message_tokens > c.spec_compact_trigger(),
        PassLevel::Evict => p.message_tokens > c.budget_tokens || (c.max_messages > 0 && p.message_count > c.max_messages),
    }
}

/// What pass `k` makes of `ms`.
pub open spec fn pass_out(k: PassLevel, ms: Seq<AgentMessageV>, c: CompactionConfig, p: Pressure, now: u64) -> (Seq<AgentMessageV>, Seq<ActionV>) {
    match k {
        PassLevel::Reclaim => reclaim_spec(ms),
        PassLevel::Shrink => shrink_spec(ms, c, p),
        PassLevel::Microcompact => micro_spec(ms, c),
        PassLevel::Collapse => collapse_spec(ms, c, p, now),
        PassLevel::Evict => evict_spec(ms, c, p, now),
    }
}

/// One pass of the pipeline: measured on the current messages and
/// estimate, run when it should, its savings taken off the estimate.
pub open spec fn pipe_step(s: PipeState, k: PassLevel, c: CompactionConfig, now: u64) -> PipeState {
    let p = pressure_spec(s.ms, c, s.est as usize);
    if !pass_should(k, c, p) {
        s
    } else {
        let (m2, a2) = pass_out(k, s.ms, c, p, now);
        PipeState {
            ms: m2,
            est: sat_sub(s.est, saved_sat(a2)),
            level: if a2.len() > 0 && level_rank(k) > s.level { level_rank(k) as int } else { s.level },
            actions: s.actions + a2,
        }
    }
}

/// The estimate before compaction: the larger of the messages' own tokens
/// and the caller's estimate.
pub open spec fn before_estimate(ms: Seq<AgentMessageV>, estimated: int) -> int {
    if ttoks(ms) > estimated { ttoks(ms) } else { estimated }
}

/// The five passes in order.
pub open spec fn pipeline_spec(ms: Seq<AgentMessageV>, c: CompactionConfig, estimated: int, now: u64) -> PipeState {
    let s0 = PipeState { ms, est: before_estimate(ms, estimated), level: 0, actions: Seq::empty() };
    let s1 = pipe_step(s0, PassLevel::Reclaim, c, now);
    let s2 = pipe_step(s1, PassLevel::Shrink, c, now);
    let s3 = pipe_step(s2, PassLevel::Microcompact, c, now);
    let s4 = pipe_step(s3, PassLevel::Collapse, c, now);
    pipe_step(s4, PassLevel::Evict, c, now)
}

/// The estimate after compaction: the estimate before, less what the
/// messages lost, but never below the messages' own tokens.
pub open spec fn after_estimate(before_est: int, before_tokens: int, after_tokens: int) -> int {
    let e = sat_sub(before_est, sat_sub(before_tokens, after_tokens));
    if e > after_tokens { e } else { after_tokens }
}

fn saved_of(actions: &Vec<CompactionAction>) -> (r: usize)
    ensures
        r == saved_sat(av(actions@)),
{
    let mut acc: usize = 0;
    let mut i: usize = 0;
    while i < actions.len()
        invariant
            i <= actions@.len(),
            acc == saved_sat(av(actions@.take(i as int))),
        decreases actions@.len() - i,
    {
        proof {
            assert(av(actions@.take(i + 1)).drop_last() =~= av(actions@.take(i as int)));
            assert(av(actions@.take(i + 1)).last() == actions@[i as int]@);
        }
        acc = acc.saturating_add(actions[i].before_tokens.saturating_sub(actions[i].after_tokens));
        i = i + 1;
    }
    proof {
        assert(actions@.take(actions@.len() as int) =~= actions@);
    }
    acc
}

fn absorb(est: usize, level: u8, all: &mut Vec<CompactionAction>, actions: Vec<CompactionAction>, rank: u8) -> (r: (usize, u8))
    ensures
        av(final(all)@) == av(old(all)@) + av(actions@),
        r.0 == sat_sub(est as int, saved_sat(av(actions@))),
        r.1 == (if actions@.len() > 0 && rank > level { rank } else { level }),
{
    let saved_now = saved_of(&actions);
    let e = est.saturating_sub(saved_now);
    let l = if actions.len() > 0 && rank > level { rank } else { level };
    let ghost a = all@;
    let ghost b = actions@;
    let mut actions = actions;
    all.append(&mut actions);
    proof {
        assert(all@ =~= a + b);
        assert(av(all@) =~= av(a) + av(b));
    }
    (e, l)
}

/// Runs the whole pipeline with `now` as the timestamp of the summaries and
/// markers it writes.
pub fn run_at(messages: Vec<AgentMessage>, config: &CompactionConfig, estimated_tokens: usize, now: u64) -> (r: CompactionResult)
    requires
        config_ok(*config),
    ensures
        ({
            let ms = mv(messages@);
            let s = pipeline_spec(ms, *config, estimated_tokens as int, now);
            let out = mv(r.messages@);
            let be = before_estimate(ms, estimated_tokens as int);
            let (a, b, c) = action_counts(s.actions);
            &&& out == sanitized(s.ms)
            &&& r.stats.level == s.level
            &&& r.stats.before_message_count == ms.len()
            &&& r.stats.after_message_count == out.len()
            &&& r.stats.before_estimated_tokens == be
            &&& r.stats.after_estimated_tokens == after_estimate(be, ttoks(ms), ttoks(out))
            &&& dv(r.stats.before_tool_details@) == sort_desc(tool_details_in_order(ms))
            &&& dv(r.stats.after_tool_details@) == sort_desc(tool_details_in_order(out))
            &&& av(r.stats.actions@) == s.actions
            &&& r.stats.tool_outputs_truncated == sat(a)
            &&& r.stats.turns_summarized == sat(b)
            &&& r.stats.messages_dropped == sat(c)
        }),
        paired(mv(r.messages@)),
        r.stats.after_estimated_tokens >= ttoks(mv(r.messages@)),
        ttoks(mv(r.messages@)) <= r.stats.before_estimated_tokens ==> r.stats.after_estimated_tokens
            <= r.stats.before_estimated_tokens,
{
    let ghost ms = mv(messages@);
    let before_message_count = messages.len();
    let before_tool_details = collect_tool_details(messages.as_slice());
    let before_message_tokens = total_tokens(messages.as_slice());
    let before_estimated_tokens = if before_message_tokens > estimated_tokens { before_message_tokens } else { estimated_tokens };
    let ghost s0 = PipeState { ms, est: before_estimated_tokens as int, level: 0, actions: Seq::empty() };
    let mut est = before_estimated_tokens;
    let mut level: u8 = 0;
    let mut all: Vec<CompactionAction> = Vec::new();
    let mut current = messages;
    proof {
        assert(av(all@) =~= Seq::<ActionV>::empty());
    }

    let ctx = PassContext { config, pressure: Pressure::from_messages(current.as_slice(), config, est) };
    let pass = Reclaim;
    if pass.should_run(&ctx) {
        let res = pass.run(current, &ctx);
        let (e, l) = absorb(est, level, &mut all, res.actions, level_of(PassLevel::Reclaim));
        est = e;
        level = l;
        current = res.messages;
    }
    let ghost s1 = pipe_step(s0, PassLevel::Reclaim, *config, now);
    assert(mv(current@) == s1.ms && est == s1.est && level == s1.level && av(all@) == s1.actions);

    let ctx = PassContext { config, pressure: Pressure::from_messages(current.as_slice(), config, est) };
    let pass = Shrink;
    if pass.should_run(&ctx) {
        let res = pass.run(current, &ctx);
        let (e, l) = absorb(est, level, &mut all, res.actions, level_of(PassLevel::Shrink));
        est = e;
        level = l;
        current = res.messages;
    }
    let ghost s2 = pipe_step(s1, PassLevel::Shrink, *config, now);
    assert(mv(current@) == s2.ms && est == s2.est && level == s2.level && av(all@) == s2.actions);

    let ctx = PassContext { config, pressure: Pressure::from_messages(current.as_slice(), config, est) };
    let pass = Microcompact;
    if pass.should_run(&ctx) {
        let res = pass.run(current, &ctx);
        let (e, l) = absorb(est, level, &mut all, res.actions, level_of(PassLevel::Microcompact));
        est = e;
        level = l;
        current = res.messages;
    }
    let ghost s3 = pipe_step(s2, PassLevel::Microcompact, *config, now);
    assert(mv(current@) == s3.ms && est == s3.est && level == s3.level && av(all@) == s3.actions);

    let pressure = Pressure::from_messages(current.as_slice(), config, est);
    if pressure.message_tokens > config.compact_trigger() {
        let res = collapse_at(current, config, &pressure, now);
        let (e, l) = absorb(est, level, &mut all, res.actions, level_of(PassLevel::Collapse));
        est = e;
        level = l;
        current = res.messages;
    }
    let ghost s4 = pipe_step(s3, PassLevel::Collapse, *config, now);
    assert(mv(current@) == s4.ms && est == s4.est && level == s4.level && av(all@) == s4.actions);

    let pressure = Pressure::from_messages(current.as_slice(), config, est);
    if pressure.message_tokens > config.budget_tokens || (config.max_messages > 0 && pressure.message_count
        > config.max_messages) {
        let res = evict_at(current, config, &pressure, now);
        let (e, l) = absorb(est, level, &mut all, res.actions, level_of(PassLevel::Evict));
        est = e;
        level = l;
        current = res.messages;
    }
    let ghost s5 = pipe_step(s4, PassLevel::Evict, *config, now);
    assert(mv(current@) == s5.ms && est == s5.est && level == s5.level && av(all@) == s5.actions);

    let result_messages = sanitize_tool_pairs(current);
    proof {
        lemma_sanitized_is_paired(s5.ms);
    }
    let after_message_count = result_messages.len();
    let after_tool_details = collect_tool_details(result_messages.as_slice());
    let after_message_tokens = total_tokens(result_messages.as_slice());
    let savings = before_message_tokens.saturating_sub(after_message_tokens);
    let e = before_estimated_tokens.saturating_sub(savings);
    let after_estimated_tokens = if e > after_message_tokens { e } else { after_message_tokens };
    let stats = build_stats(
        StatsInput {
            level,
            before_message_count,
            after_message_count,
            before_estimated_tokens,
            after_estimated_tokens,
            before_tool_details,
            after_tool_details,
            actions: all,
        },
    );
    CompactionResult { messages: result_messages, stats }
}

fn level_of(k: PassLevel) -> (r: u8)
    ensures
        r == level_rank(k),
{
    k.as_u8()
}

/// Runs the full compaction pipeline on `messages`; `estimated_tokens` is
/// the caller's estimate of the whole request. Summaries and markers are
/// stamped with the clock's time.
pub fn run(messages: Vec<AgentMessage>, config: &CompactionConfig, estimated_tokens: usize) -> (r: CompactionResult)
    requires
        config_ok(*config),
    ensures
        exists|now: u64| mv(r.messages@) == sanitized(pipeline_spec(mv(messages@), *config, estimated_tokens as int, now).ms),
        paired(mv(r.messages@)),
        r.stats.after_estimated_tokens >= ttoks(mv(r.messages@)),
        ttoks(mv(r.messages@)) <= r.stats.before_estimated_tokens ==> r.stats.after_estimated_tokens
            <= r.stats.before_estimated_tokens,
        r.stats.before_estimated_tokens == before_estimate(mv(messages@), estimated_tokens as int),
        r.stats.before_message_count == messages@.len(),
        r.stats.after_message_count == r.messages@.len(),
{
    run_at(messages, config, estimated_tokens, now_or_zero())
}

} // verus!
