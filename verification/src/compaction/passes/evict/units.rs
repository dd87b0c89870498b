//! The units eviction never splits: a tool call with its results, and a
//! user message with the plain answers that follow it.

use vstd::prelude::*;
use crate::compaction::passes::collapse::trailing_end;
use crate::tokens::sat;
use crate::types::{AgentMessage, AgentMessageV, Message, MessageV, is_tool_result, is_user, mv};
use super::Span;
use super::bounds::{calls_tools, is_tool_call_assistant, is_turn_start};

verus! {

/// Where the run after a user message ends: at the bound, the next user
/// message, or the next tool call.
pub open spec fn user_run_end(ms: Seq<AgentMessageV>, j: int, end: int) -> int
    decreases end - j,
{
    if j >= end || is_user(ms[j]) || calls_tools(ms[j]) {
        j
    } else {
        user_run_end(ms, j + 1, end)
    }
}

/// The units of messages `[idx, end)`, in order.
pub open spec fn units_from(ms: Seq<AgentMessageV>, idx: int, end: int) -> Seq<Span>
    decreases end - idx,
{
    if idx >= end || idx < 0 {
        Seq::empty()
    } else {
        let e = if calls_tools(ms[idx]) {
            trailing_end(ms, idx + 1, end)
        } else if is_user(ms[idx]) {
            user_run_end(ms, idx + 1, end)
        } else {
            idx + 1
        };
        if e <= idx || e > end {
            Seq::empty()
        } else {
            seq![Span { start: idx as usize, end: e as usize }] + units_from(ms, e, end)
        }
    }
}

proof fn lemma_user_run_end(ms: Seq<AgentMessageV>, j: int, end: int)
    requires
        j <= end,
    ensures
        j <= user_run_end(ms, j, end) <= end,
    decreases end - j,
{
    if !(j >= end || is_user(ms[j]) || calls_tools(ms[j])) {
        lemma_user_run_end(ms, j + 1, end);
    }
}

proof fn lemma_trailing_end_range(ms: Seq<AgentMessageV>, j: int, end: int)
    requires
        j <= end,
    ensures
        j <= trailing_end(ms, j, end) <= end,
    decreases end - j,
{
    if !(j >= end || !is_tool_result(ms[j])) {
        lemma_trailing_end_range(ms, j + 1, end);
    }
}

fn is_result_msg(m: &AgentMessage) -> (r: bool)
    ensures
        r == is_tool_result(m@),
{
    match m {
        AgentMessage::Llm(Message::ToolResult { .. }) => true,
        _ => false,
    }
}

pub fn safe_message_units(messages: &[AgentMessage], bounds: Span) -> (r: Vec<Span>)
    requires
        bounds.end <= messages@.len(),
    ensures
        r@ == units_from(mv(messages@), bounds.start as int, bounds.end as int),
{
    let ghost ms = mv(messages@);
    let mut units: Vec<Span> = Vec::new();
    let mut idx = bounds.start;
    if idx >= bounds.end {
        return units;
    }
    while idx < bounds.end
        invariant
            bounds.start <= idx <= bounds.end <= messages@.len(),
            ms == mv(messages@),
            units@ + units_from(ms, idx as int, bounds.end as int) == units_from(ms, bounds.start as int, bounds.end as int),
        decreases bounds.end - idx,
    {
        proof {
            assert(ms[idx as int] == messages@[idx as int]@);
            lemma_trailing_end_range(ms, idx + 1, bounds.end as int);
            lemma_user_run_end(ms, idx + 1, bounds.end as int);
        }
        let ghost pu = units@;
        let ghost rest = units_from(ms, idx as int, bounds.end as int);
        let e: usize;
        if is_tool_call_assistant(&messages[idx]) {
            let mut end = idx + 1;
            while end < bounds.end && is_result_msg(&messages[end])
                invariant
                    idx + 1 <= end <= bounds.end <= messages@.len(),
                    ms == mv(messages@),
                    trailing_end(ms, idx + 1, bounds.end as int) == trailing_end(ms, end as int, bounds.end as int),
                decreases bounds.end - end,
            {
                proof {
                    assert(ms[end as int] == messages@[end as int]@);
                }
                end = end + 1;
            }
            proof {
                if end < bounds.end {
                    assert(ms[end as int] == messages@[end as int]@);
                }
            }
            e = end;
        } else if is_turn_start(&messages[idx]) {
            let mut j = idx + 1;
            while j < bounds.end && !is_turn_start(&messages[j]) && !is_tool_call_assistant(&messages[j])
                invariant
                    idx + 1 <= j <= bounds.end <= messages@.len(),
                    ms == mv(messages@),
                    user_run_end(ms, idx + 1, bounds.end as int) == user_run_end(ms, j as int, bounds.end as int),
                decreases bounds.end - j,
            {
                proof {
                    assert(ms[j as int] == messages@[j as int]@);
                }
                j = j + 1;
            }
            proof {
                if j < bounds.end {
                    assert(ms[j as int] == messages@[j as int]@);
                }
            }
            e = j;
        } else {
            e = idx + 1;
        }
        units.push(Span { start: idx, end: e });
        proof {
            assert(rest == seq![Span { start: idx, end: e }] + units_from(ms, e as int, bounds.end as int));
            assert(units@ + units_from(ms, e as int, bounds.end as int) =~= pu + rest);
        }
        idx = e;
    }
    proof {
        assert(units@ + Seq::<Span>::empty() =~= units@);
    }
    units
}

/// The span from the start of unit `a` to the end of unit `b - 1`.
pub open spec fn window(units: Seq<Span>, a: int, b: int) -> Span {
    Span { start: units[a].start, end: units[b - 1].end }
}

/// A window that covers at least `need` messages.
pub open spec fn wide_enough(w: Span, need: int) -> bool {
    w.start <= w.end && w.end - w.start >= need
}

/// The wide-enough windows starting at unit `a` and ending before unit `b`.
pub open spec fn win_row(units: Seq<Span>, a: int, b: int, need: int) -> Seq<Span>
    decreases b - a,
{
    if b <= a {
        Seq::empty()
    } else {
        win_row(units, a, b - 1, need) + if wide_enough(window(units, a, b), need) {
            seq![window(units, a, b)]
        } else {
            Seq::empty()
        }
    }
}

/// The wide-enough windows of units starting below unit `a`, by start, then
/// by end.
pub open spec fn win_all(units: Seq<Span>, a: int, need: int) -> Seq<Span>
    decreases a,
{
    if a <= 0 {
        Seq::empty()
    } else {
        win_all(units, a - 1, need) + win_row(units, a - 1, units.len() as int, need)
    }
}

/// Every run of whole units within `bounds` that removes at least `need`
/// messages.
pub open spec fn windows_spec(ms: Seq<AgentMessageV>, bounds: Span, need: int) -> Seq<Span> {
    let u = units_from(ms, bounds.start as int, bounds.end as int);
    win_all(u, u.len() as int, need)
}

pub fn safe_message_windows(messages: &[AgentMessage], bounds: Span, need_remove: usize) -> (r: Vec<Span>)
    requires
        bounds.end <= messages@.len(),
    ensures
        r@ == windows_spec(mv(messages@), bounds, need_remove as int),
{
    let units = safe_message_units(messages, bounds);
    let ghost u = units@;
    let mut spans: Vec<Span> = Vec::new();
    let mut a: usize = 0;
    while a < units.len()
        invariant
            a <= units@.len(),
            u == units@,
            spans@ == win_all(u, a as int, need_remove as int),
        decreases units@.len() - a,
    {
        let ghost pa = spans@;
        let mut b: usize = a;
        while b < units.len()
            invariant
                a <= b <= units@.len(),
                a < units@.len(),
                u == units@,
                spans@ == pa + win_row(u, a as int, b as int, need_remove as int),
            decreases units@.len() - b,
        {
            b = b + 1;
            let w = Span { start: units[a].start, end: units[b - 1].end };
            let ghost ps = spans@;
            if w.start <= w.end && w.end - w.start >= need_remove {
                spans.push(w);
            }
            proof {
                assert(w == window(u, a as int, b as int));
                if wide_enough(w, need_remove as int) {
                    assert(spans@ =~= ps + seq![w]);
                } else {
                    assert(spans@ =~= ps + Seq::<Span>::empty());
                }
                assert(win_row(u, a as int, b as int, need_remove as int) == win_row(u, a as int, b - 1, need_remove as int) + if wide_enough(window(u, a as int, b as int), need_remove as int) {
                    seq![window(u, a as int, b as int)]
                } else {
                    Seq::<Span>::empty()
                });
                assert(spans@ =~= pa + win_row(u, a as int, b as int, need_remove as int));
            }
        }
        a = a + 1;
    }
    spans
}

proof fn lemma_units_bounded(ms: Seq<AgentMessageV>, idx: int, end: int)
    ensures
        forall|k: int| 0 <= k < units_from(ms, idx, end).len() ==> #[trigger] units_from(ms, idx, end)[k].end <= end,
    decreases end - idx,
{
    if !(idx >= end || idx < 0) {
        let e = if calls_tools(ms[idx]) {
            trailing_end(ms, idx + 1, end)
        } else if is_user(ms[idx]) {
            user_run_end(ms, idx + 1, end)
        } else {
            idx + 1
        };
        if !(e <= idx || e > end) {
            lemma_units_bounded(ms, e, end);
            let rest = units_from(ms, e, end);
            assert forall|k: int| 0 <= k < units_from(ms, idx, end).len() implies #[trigger] units_from(ms, idx, end)[k].end <= end by {
                if k > 0 {
                    assert(units_from(ms, idx, end)[k] == rest[k - 1]);
                }
            }
        }
    }
}

proof fn lemma_win_row_bounded(u: Seq<Span>, a: int, b: int, need: int, bound: int)
    requires
        0 <= a,
        b <= u.len(),
        need > 0,
        forall|k: int| 0 <= k < u.len() ==> #[trigger] u[k].end <= bound,
    ensures
        forall|k: int| 0 <= k < win_row(u, a, b, need).len() ==> #[trigger] win_row(u, a, b, need)[k].start < win_row(u, a, b, need)[k].end <= bound,
    decreases b - a,
{
    if b > a {
        lemma_win_row_bounded(u, a, b - 1, need, bound);
        assert(u[b - 1].end <= bound);
        let x = win_row(u, a, b - 1, need);
        assert forall|k: int| 0 <= k < win_row(u, a, b, need).len() implies #[trigger] win_row(u, a, b, need)[k].start < win_row(u, a, b, need)[k].end <= bound by {
            if k < x.len() {
                assert(win_row(u, a, b, need)[k] == x[k]);
            } else {
                assert(win_row(u, a, b, need)[k] == window(u, a, b));
            }
        }
    }
}

proof fn lemma_win_all_bounded(u: Seq<Span>, a: int, need: int, bound: int)
    requires
        a <= u.len(),
        need > 0,
        forall|k: int| 0 <= k < u.len() ==> #[trigger] u[k].end <= bound,
    ensures
        forall|k: int| 0 <= k < win_all(u, a, need).len() ==> #[trigger] win_all(u, a, need)[k].start < win_all(u, a, need)[k].end <= bound,
    decreases a,
{
    if a > 0 {
        lemma_win_all_bounded(u, a - 1, need, bound);
        lemma_win_row_bounded(u, a - 1, u.len() as int, need, bound);
        let x = win_all(u, a - 1, need);
        let y = win_row(u, a - 1, u.len() as int, need);
        assert forall|k: int| 0 <= k < win_all(u, a, need).len() implies #[trigger] win_all(u, a, need)[k].start < win_all(u, a, need)[k].end <= bound by {
            if k < x.len() {
                assert(win_all(u, a, need)[k] == x[k]);
            } else {
                assert(win_all(u, a, need)[k] == y[k - x.len()]);
            }
        }
    }
}

/// Every window is a nonempty span within the bounds.
pub proof fn lemma_window_in_bounds(ms: Seq<AgentMessageV>, bounds: Span, need: int, k: int)
    requires
        need > 0,
        0 <= k < windows_spec(ms, bounds, need).len(),
    ensures
        windows_spec(ms, bounds, need)[k].start < windows_spec(ms, bounds, need)[k].end <= bounds.end,
{
    let u = units_from(ms, bounds.start as int, bounds.end as int);
    lemma_units_bounded(ms, bounds.start as int, bounds.end as int);
    lemma_win_all_bounded(u, u.len() as int, need, bounds.end as int);
    assert(windows_spec(ms, bounds, need) == win_all(u, u.len() as int, need));
    assert(win_all(u, u.len() as int, need)[k].start < win_all(u, u.len() as int, need)[k].end <= bounds.end);
}

/// How much losing a message costs: user messages most, plain answers and
/// extensions a little, tool traffic nothing.
pub open spec fn drop_cost(m: AgentMessageV) -> int {
    match m {
        AgentMessageV::Llm(MessageV::User { .. }) => 1000,
        AgentMessageV::Llm(MessageV::Assistant { .. }) => if calls_tools(m) { 0 } else { 10 },
        AgentMessageV::Llm(MessageV::ToolResult { .. }) => 0,
        AgentMessageV::Extension { .. } => 10,
    }
}

pub fn message_drop_cost(message: &AgentMessage) -> (r: usize)
    ensures
        r == drop_cost(message@),
{
    match message {
        AgentMessage::Llm(Message::User { .. }) => 1000,
        AgentMessage::Llm(Message::Assistant { .. }) => if is_tool_call_assistant(message) { 0 } else { 10 },
        AgentMessage::Llm(Message::ToolResult { .. }) => 0,
        AgentMessage::Extension(_) => 10,
    }
}

/// The drop cost of messages `[i, j)` (saturating).
pub open spec fn score_of(ms: Seq<AgentMessageV>, i: int, j: int) -> int
    decreases j - i,
{
    if j <= i {
        0
    } else {
        sat(score_of(ms, i, j - 1) + drop_cost(ms[j - 1]))
    }
}

pub fn span_score(messages: &[AgentMessage], span: Span) -> (r: usize)
    requires
        span.end <= messages@.len(),
    ensures
        r == score_of(mv(messages@), span.start as int, span.end as int),
{
    let ghost ms = mv(messages@);
    let mut acc: usize = 0;
    let mut k = span.start;
    if k >= span.end {
        return 0;
    }
    while k < span.end
        invariant
            span.start <= k <= span.end <= messages@.len(),
            ms == mv(messages@),
            acc == score_of(ms, span.start as int, k as int),
        decreases span.end - k,
    {
        proof {
            assert(ms[k as int] == messages@[k as int]@);
        }
        acc = acc.saturating_add(message_drop_cost(&messages[k]));
        k = k + 1;
    }
    acc
}

} // verus!
