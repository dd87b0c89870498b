//! Choosing the span to evict.

use vstd::prelude::*;
use crate::compaction::config::CompactionConfig;
use crate::compaction::marker::{build_full_marker_at, marker_text, removed_note, text_message_spec};
use crate::compaction::passes::collapse::span_tokens;
use crate::compaction::passes::shrink::pass::sat_sub;
use crate::tokens::{message_tokens, mtoks, sat};
use crate::types::{AgentMessage, AgentMessageV, mv};
use super::{EvictionPlan, PlanV, Span};
use super::bounds::{bounds_spec, eviction_bounds, token_bounds_spec, token_eviction_bounds};
use super::units::{lemma_window_in_bounds, safe_message_windows, score_of, span_score, windows_spec};

verus! {

/// The marker for dropping `removed` messages of `ms`, stamped `now`.
pub open spec fn marker_for(ms: Seq<AgentMessageV>, removed: int, now: u64) -> AgentMessageV {
    text_message_spec(marker_text(ms, removed_note(removed as nat)), now)
}

/// The first end after `e - 1` (at most `bend`) whose span from `s` frees
/// enough tokens to fit the budget.
pub open spec fn fit_end(ms: Seq<AgentMessageV>, s: int, e: int, bend: int, current: int, budget: int) -> Option<int>
    decreases bend + 1 - e,
{
    if e > bend {
        None
    } else if sat_sub(current, span_tokens(ms, s, e)) <= budget {
        Some(e)
    } else {
        fit_end(ms, s, e + 1, bend, current, budget)
    }
}

/// The plan for span `[s, e)`, its length and the budget slack left: a
/// marker is added when it is smaller than what it replaces and still fits.
pub open spec fn token_candidate(ms: Seq<AgentMessageV>, s: int, e: int, current: int, budget: int, now: u64) -> (PlanV, int, int) {
    let freed = span_tokens(ms, s, e);
    let after = sat_sub(current, freed);
    let m = marker_for(ms, e - s, now);
    let mt = mtoks(m);
    let (marker, at, fin): (Option<AgentMessageV>, int, int) = if mt < freed && sat(after + mt) <= budget {
        (Some(m), mt, after + mt)
    } else {
        (None, 0, after)
    };
    (PlanV { span: Span { start: s as usize, end: e as usize }, marker, after_tokens: at }, e - s, budget - fin)
}

/// Over the starts below `k`: the shortest fitting span, the one leaving
/// the least slack among equals, the earliest among those.
pub open spec fn token_best(ms: Seq<AgentMessageV>, bd: Span, k: int, current: int, budget: int, now: u64) -> Option<(PlanV, int, int)>
    decreases k,
{
    if k <= bd.start {
        None
    } else {
        let prev = token_best(ms, bd, k - 1, current, budget, now);
        match fit_end(ms, k - 1, k, bd.end as int, current, budget) {
            None => prev,
            Some(e) => {
                let cand = token_candidate(ms, k - 1, e, current, budget, now);
                match prev {
                    None => Some(cand),
                    Some(p) => if cand.1 < p.1 || (cand.1 == p.1 && cand.2 < p.2) {
                        Some(cand)
                    } else {
                        prev
                    },
                }
            },
        }
    }
}

/// The token plan: when over budget, the best span within the token bounds.
pub open spec fn token_plan_spec(ms: Seq<AgentMessageV>, c: CompactionConfig, current: int, now: u64) -> Option<PlanV> {
    if current <= c.budget_tokens {
        None
    } else {
        match token_bounds_spec(ms, c) {
            None => None,
            Some(bd) => match token_best(ms, bd, bd.end as int, current, c.budget_tokens as int, now) {
                Some(b) => Some(b.0),
                None => None,
            },
        }
    }
}

/// Whether dropping `[s, e)` brings `current` tokens within `budget`.
pub open spec fn fits_budget(ms: Seq<AgentMessageV>, s: int, e: int, current: int, budget: int) -> bool {
    sat_sub(current, span_tokens(ms, s, e)) <= budget
}

proof fn lemma_fit_end(ms: Seq<AgentMessageV>, s: int, e: int, bend: int, current: int, budget: int)
    ensures
        match fit_end(ms, s, e, bend, current, budget) {
            Some(x) => e <= x <= bend && fits_budget(ms, s, x, current, budget) && forall|y: int|
                e <= y < x ==> !#[trigger] fits_budget(ms, s, y, current, budget),
            None => forall|y: int| e <= y <= bend ==> !#[trigger] fits_budget(ms, s, y, current, budget),
        },
    decreases bend + 1 - e,
{
    if e <= bend && !fits_budget(ms, s, e, current, budget) {
        lemma_fit_end(ms, s, e + 1, bend, current, budget);
    }
}

proof fn lemma_token_best(ms: Seq<AgentMessageV>, bd: Span, k: int, current: int, budget: int, now: u64)
    requires
        k <= bd.end,
    ensures
        match token_best(ms, bd, k, current, budget, now) {
            Some(b) => {
                &&& bd.start <= b.0.span.start < k
                &&& b.0.span.start < b.0.span.end <= bd.end
                &&& b == token_candidate(ms, b.0.span.start as int, b.0.span.end as int, current, budget, now)
                &&& fits_budget(ms, b.0.span.start as int, b.0.span.end as int, current, budget)
                &&& forall|s: int, e: int|
                    bd.start <= s < k && s < e <= bd.end && #[trigger] fits_budget(ms, s, e, current, budget) ==> b.1
                        <= e - s
                &&& forall|s: int, e: int|
                    bd.start <= s < k && s < e <= bd.end && #[trigger] fits_budget(ms, s, e, current, budget) && e - s
                        == b.1 ==> b.2 <= token_candidate(ms, s, e, current, budget, now).2
            },
            None => forall|s: int, e: int|
                bd.start <= s < k && s < e <= bd.end ==> !#[trigger] fits_budget(ms, s, e, current, budget),
        },
    decreases k,
{
    if k > bd.start {
        lemma_token_best(ms, bd, k - 1, current, budget, now);
        lemma_fit_end(ms, k - 1, k, bd.end as int, current, budget);
        let prev = token_best(ms, bd, k - 1, current, budget, now);
        match fit_end(ms, k - 1, k, bd.end as int, current, budget) {
            None => {},
            Some(x) => {
                let cand = token_candidate(ms, k - 1, x, current, budget, now);
                assert(cand.0.span.start == k - 1 && cand.0.span.end == x);
                assert(cand.1 == x - (k - 1));
                assert forall|s: int, e: int|
                    s == k - 1 && s < e <= bd.end && #[trigger] fits_budget(ms, s, e, current, budget) implies x <= e by {
                    if e < x {
                        assert(!fits_budget(ms, k - 1, e, current, budget));
                    }
                }
                assert forall|s: int, e: int|
                    s == k - 1 && s < e <= bd.end && #[trigger] fits_budget(ms, s, e, current, budget) && e - s == cand.1
                        implies e == x by {
                    if e < x {
                        assert(!fits_budget(ms, k - 1, e, current, budget));
                    }
                }
            },
        }
    }
}

/// The token plan evicts a shortest span that fits: when it returns a plan,
/// the history was over budget, the span lies within the token bounds,
/// dropping it brings the history within budget, no fitting span within the
/// bounds is shorter, and among the fitting spans of the same length none
/// leaves less slack. When it returns none, the history was within budget,
/// there were no bounds, or no span within them fits.
pub proof fn lemma_token_plan_shortest(ms: Seq<AgentMessageV>, c: CompactionConfig, current: int, now: u64)
    ensures
        token_plan_spec(ms, c, current, now) matches Some(p) ==> {
            &&& current > c.budget_tokens
            &&& token_bounds_spec(ms, c) matches Some(bd)
            &&& bd.start <= p.span.start < p.span.end <= bd.end
            &&& fits_budget(ms, p.span.start as int, p.span.end as int, current, c.budget_tokens as int)
            &&& forall|s: int, e: int|
                bd.start <= s < e <= bd.end && #[trigger] fits_budget(ms, s, e, current, c.budget_tokens as int) ==> p.span.end
                    - p.span.start <= e - s
            &&& forall|s: int, e: int|
                bd.start <= s < e <= bd.end && #[trigger] fits_budget(ms, s, e, current, c.budget_tokens as int) && e - s
                    == p.span.end - p.span.start ==> token_candidate(
                    ms,
                    p.span.start as int,
                    p.span.end as int,
                    current,
                    c.budget_tokens as int,
                    now,
                ).2 <= token_candidate(ms, s, e, current, c.budget_tokens as int, now).2
        },
        token_plan_spec(ms, c, current, now) is None ==> (current <= c.budget_tokens || token_bounds_spec(ms, c) is None
            || forall|s: int, e: int|
            token_bounds_spec(ms, c)->0.start <= s < e <= token_bounds_spec(ms, c)->0.end ==> !#[trigger] fits_budget(
                ms,
                s,
                e,
                current,
                c.budget_tokens as int,
            )),
{
    if current > c.budget_tokens {
        if let Some(bd) = token_bounds_spec(ms, c) {
            lemma_token_best(ms, bd, bd.end as int, current, c.budget_tokens as int, now);
        }
    }
}

pub open spec fn plan_view(o: Option<EvictionPlan>) -> Option<PlanV> {
    match o {
        Some(p) => Some(p@),
        None => None,
    }
}

pub fn token_plan(messages: &[AgentMessage], config: &CompactionConfig, current_tokens: usize, now: u64) -> (r: Option<EvictionPlan>)
    ensures
        plan_view(r) == token_plan_spec(mv(messages@), *config, current_tokens as int, now),
        r matches Some(p) ==> p.span.start < p.span.end <= messages@.len(),
{
    let ghost ms = mv(messages@);
    if current_tokens <= config.budget_tokens {
        return None;
    }
    let bounds = match token_eviction_bounds(messages, config) {
        Some(b) => b,
        None => return None,
    };
    let budget = config.budget_tokens;
    let mut best: Option<(EvictionPlan, usize, usize)> = None;
    let mut start = bounds.start;
    while start < bounds.end
        invariant
            bounds.start <= start <= bounds.end <= messages@.len(),
            bounds.start < bounds.end,
            ms == mv(messages@),
            budget == config.budget_tokens,
            match best {
                Some(b) => token_best(ms, bounds, start as int, current_tokens as int, budget as int, now) == Some(
                    (b.0@, b.1 as int, b.2 as int),
                ) && b.0.span.start < b.0.span.end <= messages@.len(),
                None => token_best(ms, bounds, start as int, current_tokens as int, budget as int, now) is None,
            },
        decreases bounds.end - start,
    {
        let mut freed: usize = 0;
        let mut end = start;
        let mut found: Option<usize> = None;
        while end < bounds.end && found.is_none()
            invariant
                start <= end <= bounds.end <= messages@.len(),
                ms == mv(messages@),
                found matches Some(e) ==> (e <= bounds.end && e > start && fit_end(ms, start as int, start + 1, bounds.end as int, current_tokens as int, budget as int) == Some(e as int)
                    && freed == span_tokens(ms, start as int, e as int) && current_tokens.saturating_sub(freed) <= budget),
                found is None ==> (fit_end(ms, start as int, start + 1, bounds.end as int, current_tokens as int, budget as int) == fit_end(ms, start as int, end + 1, bounds.end as int, current_tokens as int, budget as int)
                    && freed == span_tokens(ms, start as int, end as int)),
            decreases bounds.end - end, if found is None { 1int } else { 0int },
        {
            end = end + 1;
            proof {
                assert(ms[end - 1] == messages@[end - 1]@);
            }
            freed = freed.saturating_add(message_tokens(&messages[end - 1]));
            if current_tokens.saturating_sub(freed) <= budget {
                found = Some(end);
            }
        }
        let ghost prev = token_best(ms, bounds, start as int, current_tokens as int, budget as int, now);
        if let Some(e) = found {
            let after_wo = current_tokens.saturating_sub(freed);
            let marker = build_full_marker_at(messages, e - start, now);
            let mt = message_tokens(&marker);
            let (m, at, fin) = if mt < freed && after_wo.saturating_add(mt) <= budget {
                (Some(marker), mt, after_wo + mt)
            } else {
                (None, 0, after_wo)
            };
            let slack = budget - fin;
            let len = e - start;
            let plan = EvictionPlan { span: Span { start, end: e }, marker: m, after_tokens: at };
            let ghost cand = token_candidate(ms, start as int, e as int, current_tokens as int, budget as int, now);
            proof {
                assert(plan@ == cand.0);
            }
            let replace = match &best {
                None => true,
                Some(b) => len < b.1 || (len == b.1 && slack < b.2),
            };
            if replace {
                best = Some((plan, len, slack));
            }
        }
        start = start + 1;
    }
    match best {
        Some(b) => Some(b.0),
        None => None,
    }
}

/// The candidate for window `w`: its plan when the result fits the target
/// length, with the key it is ranked by (marker first, then cheapest to
/// drop, then closest to the target, then shortest, then earliest).
pub open spec fn limit_candidate(ms: Seq<AgentMessageV>, w: Span, need: int, target: int, now: u64) -> Option<(PlanV, (int, int, int, int, int))> {
    let len = w.end - w.start;
    let dropped = span_tokens(ms, w.start as int, w.end as int);
    let m = marker_for(ms, len, now);
    let mt = mtoks(m);
    let can = len > need && mt <= dropped;
    let final_len = ms.len() - len + if can { 1int } else { 0int };
    if final_len <= target {
        Some((
            PlanV { span: w, marker: if can { Some(m) } else { None }, after_tokens: if can { mt } else { 0 } },
            (if can { 0int } else { 1int }, score_of(ms, w.start as int, w.end as int), target - final_len, len, w.start as int),
        ))
    } else {
        None
    }
}

/// Lexicographic order on keys.
pub open spec fn key_lt(a: (int, int, int, int, int), b: (int, int, int, int, int)) -> bool {
    a.0 < b.0 || (a.0 == b.0 && (a.1 < b.1 || (a.1 == b.1 && (a.2 < b.2 || (a.2 == b.2 && (a.3 < b.3 || (a.3 == b.3
        && a.4 < b.4)))))))
}

/// The first candidate with the least key among windows below `k`.
pub open spec fn limit_best(ms: Seq<AgentMessageV>, ws: Seq<Span>, k: int, need: int, target: int, now: u64) -> Option<(PlanV, (int, int, int, int, int))>
    decreases k,
{
    if k <= 0 {
        None
    } else {
        let prev = limit_best(ms, ws, k - 1, need, target, now);
        match limit_candidate(ms, ws[k - 1], need, target, now) {
            None => prev,
            Some(c) => match prev {
                None => Some(c),
                Some(p) => if key_lt(c.1, p.1) {
                    Some(c)
                } else {
                    prev
                },
            },
        }
    }
}

/// The count plan: the best window that brings the history to `target`
/// messages.
pub open spec fn limit_plan_spec(ms: Seq<AgentMessageV>, c: CompactionConfig, target: int, now: u64) -> Option<PlanV> {
    match bounds_spec(ms, c) {
        None => None,
        Some(bd) => {
            let need = sat_sub(ms.len() as int, target);
            if need == 0 {
                None
            } else {
                let ws = windows_spec(ms, bd, need);
                match limit_best(ms, ws, ws.len() as int, need, target, now) {
                    Some(b) => Some(b.0),
                    None => None,
                }
            }
        },
    }
}

/// `a` comes no later than `b` in the lexicographic order of ranking keys.
pub open spec fn rank_le(a: (int, int, int, int, int), b: (int, int, int, int, int)) -> bool {
    if a.0 != b.0 {
        a.0 < b.0
    } else if a.1 != b.1 {
        a.1 < b.1
    } else if a.2 != b.2 {
        a.2 < b.2
    } else if a.3 != b.3 {
        a.3 < b.3
    } else {
        a.4 <= b.4
    }
}

/// The ranking key of window `w` (meaningful when it fits).
pub open spec fn window_key(ms: Seq<AgentMessageV>, w: Span, need: int, target: int, now: u64) -> (int, int, int, int, int) {
    match limit_candidate(ms, w, need, target, now) {
        Some(c) => c.1,
        None => (0, 0, 0, 0, 0),
    }
}

/// The plan for window `w`, when it fits.
pub open spec fn window_plan(ms: Seq<AgentMessageV>, w: Span, need: int, target: int, now: u64) -> Option<PlanV> {
    match limit_candidate(ms, w, need, target, now) {
        Some(c) => Some(c.0),
        None => None,
    }
}

/// Window `j` fits the target and ranks no later than any fitting window.
pub open spec fn least_fitting(ms: Seq<AgentMessageV>, ws: Seq<Span>, k: int, need: int, target: int, now: u64, j: int) -> bool {
    &&& 0 <= j < k
    &&& limit_candidate(ms, ws[j], need, target, now) is Some
    &&& forall|i: int|
        0 <= i < k && (#[trigger] limit_candidate(ms, ws[i], need, target, now)) is Some ==> rank_le(
            window_key(ms, ws[j], need, target, now),
            window_key(ms, ws[i], need, target, now),
        )
}

#[verifier::spinoff_prover]
#[verifier::rlimit(30)]
proof fn lemma_limit_best(ms: Seq<AgentMessageV>, ws: Seq<Span>, k: int, need: int, target: int, now: u64) -> (j: int)
    ensures
        match limit_best(ms, ws, k, need, target, now) {
            Some(b) => least_fitting(ms, ws, k, need, target, now, j) && limit_candidate(ms, ws[j], need, target, now)
                == Some(b),
            None => forall|i: int| 0 <= i < k ==> (#[trigger] limit_candidate(ms, ws[i], need, target, now)) is None,
        },
    decreases k,
{
    if k <= 0 {
        0
    } else {
        let pj = lemma_limit_best(ms, ws, k - 1, need, target, now);
        let prev = limit_best(ms, ws, k - 1, need, target, now);
        match limit_candidate(ms, ws[k - 1], need, target, now) {
            None => pj,
            Some(c) => match prev {
                None => k - 1,
                Some(p) => if key_lt(c.1, p.1) {
                    assert forall|i: int|
                        0 <= i < k && (#[trigger] limit_candidate(ms, ws[i], need, target, now)) is Some implies rank_le(
                        c.1,
                        window_key(ms, ws[i], need, target, now),
                    ) by {
                        if i < k - 1 {
                            assert(rank_le(p.1, window_key(ms, ws[i], need, target, now)));
                        }
                    }
                    k - 1
                } else {
                    assert forall|i: int|
                        0 <= i < k && (#[trigger] limit_candidate(ms, ws[i], need, target, now)) is Some implies rank_le(
                        p.1,
                        window_key(ms, ws[i], need, target, now),
                    ) by {
                        if i < k - 1 {
                            assert(rank_le(p.1, window_key(ms, ws[i], need, target, now)));
                        }
                    }
                    pj
                },
            },
        }
    }
}

/// How many messages must go for `ms` to reach `target`.
pub open spec fn limit_need(ms: Seq<AgentMessageV>, target: int) -> int {
    sat_sub(ms.len() as int, target)
}

/// The safe windows the count plan chooses among.
pub open spec fn limit_windows(ms: Seq<AgentMessageV>, c: CompactionConfig, target: int) -> Seq<Span> {
    windows_spec(ms, bounds_spec(ms, c)->0, limit_need(ms, target))
}

/// The count plan evicts a best-ranked fitting window: the plan is that of a
/// safe window whose removal brings the history to the target length, and
/// no other such window ranks earlier in the order marker-missing, drop
/// score, slack, length, start. In particular, among the fitting windows
/// with the same marker status, none is cheaper to drop. When it returns
/// none, no bounds exist, nothing needs removing, or no window fits.
pub proof fn lemma_limit_plan_least(ms: Seq<AgentMessageV>, c: CompactionConfig, target: int, now: u64)
    ensures
        limit_plan_spec(ms, c, target, now) matches Some(p) ==> {
            &&& bounds_spec(ms, c) is Some
            &&& limit_need(ms, target) > 0
            &&& exists|j: int| {
                &&& #[trigger] least_fitting(
                    ms,
                    limit_windows(ms, c, target),
                    limit_windows(ms, c, target).len() as int,
                    limit_need(ms, target),
                    target,
                    now,
                    j,
                )
                &&& window_plan(ms, limit_windows(ms, c, target)[j], limit_need(ms, target), target, now) == Some(p)
                &&& p.span == limit_windows(ms, c, target)[j]
            }
            &&& forall|i: int|
                0 <= i < limit_windows(ms, c, target).len() && (#[trigger] window_plan(
                    ms,
                    limit_windows(ms, c, target)[i],
                    limit_need(ms, target),
                    target,
                    now,
                )) is Some && (p.marker is Some) == (window_plan(
                    ms,
                    limit_windows(ms, c, target)[i],
                    limit_need(ms, target),
                    target,
                    now,
                )->0.marker is Some) ==> score_of(ms, p.span.start as int, p.span.end as int) <= score_of(
                    ms,
                    limit_windows(ms, c, target)[i].start as int,
                    limit_windows(ms, c, target)[i].end as int,
                )
        },
        limit_plan_spec(ms, c, target, now) is None ==> (bounds_spec(ms, c) is None || limit_need(ms, target) == 0
            || forall|i: int|
            0 <= i < limit_windows(ms, c, target).len() ==> (#[trigger] window_plan(
                ms,
                limit_windows(ms, c, target)[i],
                limit_need(ms, target),
                target,
                now,
            )) is None),
{
    if let Some(bd) = bounds_spec(ms, c) {
        let need = limit_need(ms, target);
        if need > 0 {
            let ws = limit_windows(ms, c, target);
            let j = lemma_limit_best(ms, ws, ws.len() as int, need, target, now);
            if let Some(b) = limit_best(ms, ws, ws.len() as int, need, target, now) {
                let p = b.0;
                assert forall|i: int|
                    0 <= i < ws.len() && (#[trigger] window_plan(ms, ws[i], need, target, now)) is Some && (p.marker is Some)
                        == (window_plan(ms, ws[i], need, target, now)->0.marker is Some) implies score_of(
                    ms,
                    p.span.start as int,
                    p.span.end as int,
                ) <= score_of(ms, ws[i].start as int, ws[i].end as int) by {
                    assert(limit_candidate(ms, ws[i], need, target, now) is Some);
                    assert(rank_le(b.1, window_key(ms, ws[i], need, target, now)));
                }
                assert(least_fitting(ms, ws, ws.len() as int, need, target, now, j));
            } else {
                assert forall|i: int| 0 <= i < ws.len() implies (#[trigger] window_plan(ms, ws[i], need, target, now)) is None by {
                    assert(limit_candidate(ms, ws[i], need, target, now) is None);
                }
            }
        }
    }
}

fn span_tokens_of(messages: &[AgentMessage], span: Span) -> (r: usize)
    requires
        span.start <= span.end <= messages@.len(),
    ensures
        r == span_tokens(mv(messages@), span.start as int, span.end as int),
{
    let ghost ms = mv(messages@);
    let mut acc: usize = 0;
    let mut k = span.start;
    while k < span.end
        invariant
            span.start <= k <= span.end <= messages@.len(),
            ms == mv(messages@),
            acc == span_tokens(ms, span.start as int, k as int),
        decreases span.end - k,
    {
        proof {
            assert(ms[k as int] == messages@[k as int]@);
        }
        acc = acc.saturating_add(message_tokens(&messages[k]));
        k = k + 1;
    }
    acc
}

fn key_less(a: (usize, usize, usize, usize, usize), b: (usize, usize, usize, usize, usize)) -> (r: bool)
    ensures
        r == key_lt((a.0 as int, a.1 as int, a.2 as int, a.3 as int, a.4 as int), (b.0 as int, b.1 as int, b.2 as int, b.3 as int, b.4 as int)),
{
    a.0 < b.0 || (a.0 == b.0 && (a.1 < b.1 || (a.1 == b.1 && (a.2 < b.2 || (a.2 == b.2 && (a.3 < b.3 || (a.3 == b.3
        && a.4 < b.4)))))))
}

pub fn message_limit_plan(messages: &[AgentMessage], config: &CompactionConfig, target_len: usize, now: u64) -> (r: Option<EvictionPlan>)
    ensures
        plan_view(r) == limit_plan_spec(mv(messages@), *config, target_len as int, now),
        r matches Some(p) ==> p.span.start < p.span.end <= messages@.len(),
{
    let ghost ms = mv(messages@);
    let bounds = match eviction_bounds(messages, config) {
        Some(b) => b,
        None => return None,
    };
    let need = messages.len().saturating_sub(target_len);
    if need == 0 {
        return None;
    }
    let ws = safe_message_windows(messages, bounds, need);
    let mut best: Option<(EvictionPlan, (usize, usize, usize, usize, usize))> = None;
    let mut k: usize = 0;
    while k < ws.len()
        invariant
            k <= ws@.len(),
            ws@ == windows_spec(ms, bounds, need as int),
            ms == mv(messages@),
            bounds.end <= messages@.len(),
            need > 0,
            match best {
                Some(b) => limit_best(ms, ws@, k as int, need as int, target_len as int, now) == Some(
                    (b.0@, (b.1.0 as int, b.1.1 as int, b.1.2 as int, b.1.3 as int, b.1.4 as int)),
                ) && b.0.span.start < b.0.span.end <= messages@.len(),
                None => limit_best(ms, ws@, k as int, need as int, target_len as int, now) is None,
            },
        decreases ws@.len() - k,
    {
        let w = ws[k];
        proof {
            lemma_window_in_bounds(ms, bounds, need as int, k as int);
        }
        let len = w.end - w.start;
        let dropped = span_tokens_of(messages, w);
        let marker = build_full_marker_at(messages, len, now);
        let mt = message_tokens(&marker);
        let can = len > need && mt <= dropped;
        let final_len = messages.len() - len + if can { 1 } else { 0 };
        if final_len <= target_len {
            let key = (if can { 0 } else { 1 }, span_score(messages, w), target_len - final_len, len, w.start);
            let plan = EvictionPlan { span: w, marker: if can { Some(marker) } else { None }, after_tokens: if can { mt } else { 0 } };
            let replace = match &best {
                None => true,
                Some(b) => key_less(key, b.1),
            };
            if replace {
                best = Some((plan, key));
            }
        }
        k = k + 1;
    }
    match best {
        Some(b) => Some(b.0),
        None => None,
    }
}

} // verus!
