//! The evict pass: removes a stale span only when the smaller passes cannot
//! fit the context.

use vstd::prelude::*;
use crate::clock::now_or_zero;
use crate::compaction::config::{CompactionConfig, pct_of};
use crate::compaction::pass::{Pass, PassContext, PassLevel, PassResult};
use crate::compaction::pressure::Pressure;
use crate::compaction::types::{ActionV, av};
use crate::tokens::sat;
use crate::types::{AgentMessage, AgentMessageV, mv};
use super::apply::{apply_plan, apply_spec, no_op};
use super::planner::{limit_plan_spec, message_limit_plan, token_plan, token_plan_spec};

verus! {

/// The message count to evict down to: the configured share of the limit,
/// at least the protected messages plus one, at most the limit.
pub open spec fn message_target_spec(c: CompactionConfig) -> int {
    let pct = sat(c.max_messages as int * c.message_limit_target_pct as int / 100);
    let minimum = sat(sat(c.keep_first as int + c.keep_recent as int) + 1);
    let t = if pct > minimum { pct } else { minimum };
    if t < c.max_messages { t } else { c.max_messages as int }
}

pub fn message_target(config: &CompactionConfig) -> (r: usize)
    ensures
        r == message_target_spec(*config),
{
    let pct = pct_of(config.max_messages, config.message_limit_target_pct);
    let minimum = config.keep_first.saturating_add(config.keep_recent).saturating_add(1);
    let t = if pct > minimum { pct } else { minimum };
    if t < config.max_messages { t } else { config.max_messages }
}

/// The evict pass at time `now`: over the token budget, the token plan;
/// otherwise, or when there is none, over the message limit, the count plan;
/// otherwise nothing.
pub open spec fn evict_spec(ms: Seq<AgentMessageV>, c: CompactionConfig, p: Pressure, now: u64) -> (Seq<AgentMessageV>, Seq<ActionV>) {
    let over_tokens = p.message_tokens > c.budget_tokens;
    let over_messages = c.max_messages > 0 && ms.len() > c.max_messages;
    let tp = token_plan_spec(ms, c, p.message_tokens as int, now);
    if over_tokens && tp is Some {
        apply_spec(ms, tp->0)
    } else if over_messages {
        let target = message_target_spec(c);
        if ms.len() <= target {
            (ms, Seq::empty())
        } else {
            match limit_plan_spec(ms, c, target, now) {
                Some(lp) => apply_spec(ms, lp),
                None => (ms, Seq::empty()),
            }
        }
    } else {
        (ms, Seq::empty())
    }
}

/// The evict pass with `now` as the timestamp of its marker.
pub fn evict_at(messages: Vec<AgentMessage>, config: &CompactionConfig, pressure: &Pressure, now: u64) -> (r: PassResult)
    ensures
        (mv(r.messages@), av(r.actions@)) == evict_spec(mv(messages@), *config, *pressure, now),
{
    let over_tokens = pressure.message_tokens > config.budget_tokens;
    let over_messages = config.max_messages > 0 && messages.len() > config.max_messages;
    if over_tokens {
        if let Some(plan) = token_plan(messages.as_slice(), config, pressure.message_tokens, now) {
            return apply_plan(messages, plan);
        }
    }
    if over_messages {
        let target = message_target(config);
        if messages.len() <= target {
            let r = no_op(messages);
            proof {
                assert(av(r.actions@) =~= Seq::<ActionV>::empty());
            }
            return r;
        }
        if let Some(plan) = message_limit_plan(messages.as_slice(), config, target, now) {
            return apply_plan(messages, plan);
        }
    }
    let r = no_op(messages);
    proof {
        assert(av(r.actions@) =~= Seq::<ActionV>::empty());
    }
    r
}

/// The evict pass.
pub struct Evict;

impl Pass for Evict {
    fn level(&self) -> (r: PassLevel)
        ensures
            r == PassLevel::Evict,
    {
        PassLevel::Evict
    }

    fn should_run(&self, ctx: &PassContext) -> (r: bool)
        ensures
            r == (ctx.pressure.message_tokens > ctx.config.budget_tokens || (ctx.config.max_messages > 0
                && ctx.pressure.message_count > ctx.config.max_messages)),
    {
        ctx.pressure.message_tokens > ctx.config.budget_tokens || (ctx.config.max_messages > 0
            && ctx.pressure.message_count > ctx.config.max_messages)
    }

    /// The marker is stamped with the clock's time.
    fn run(&self, messages: Vec<AgentMessage>, ctx: &PassContext) -> (r: PassResult)
        ensures
            exists|now: u64| (mv(r.messages@), av(r.actions@)) == evict_spec(mv(messages@), *ctx.config, ctx.pressure, now),
    {
        evict_at(messages, ctx.config, &ctx.pressure, now_or_zero())
    }
}

} // verus!
