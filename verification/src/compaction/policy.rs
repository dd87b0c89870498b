//! Per-tool compaction policy: which results count toward microcompaction
//! and how each tool's output is truncated.

use vstd::prelude::*;
use crate::text::str_eq;

verus! {

/// Results shorter than this (in bytes) are treated as already compacted.
pub const ALREADY_COMPACTED_THRESHOLD: usize = 200;

/// Tools whose results microcompaction may clear.
pub open spec fn is_compactable_tool(name: Seq<char>) -> bool {
    name == "Read"@ || name == "Bash"@ || name == "WebFetch"@ || name == "Edit"@ || name == "Write"@
}

pub fn is_compactable_tool_name(tool_name: &str) -> (r: bool)
    ensures
        r == is_compactable_tool(tool_name@),
{
    str_eq(tool_name, "Read") || str_eq(tool_name, "Bash") || str_eq(tool_name, "WebFetch") || str_eq(
        tool_name,
        "Edit",
    ) || str_eq(tool_name, "Write")
}

/// Whether a tool result counts toward microcompaction pressure: a
/// compactable tool and at least the already-compacted threshold of text.
pub fn is_compactable_tool_result(tool_name: &str, text_len: usize) -> (r: bool)
    ensures
        r == (is_compactable_tool(tool_name@) && text_len >= ALREADY_COMPACTED_THRESHOLD),
{
    is_compactable_tool_name(tool_name) && text_len >= ALREADY_COMPACTED_THRESHOLD
}

/// Truncation policy of one tool.
pub struct ToolPolicy {
    /// Token threshold for clearing an old result; `None`: never cleared by age.
    pub age_clear_threshold: Option<usize>,
    /// Line budget when truncating an oversized result.
    pub oversize_max_lines: usize,
    /// Line budget of budget-gated truncation.
    pub normal_max_lines: usize,
    /// Prefer a structural outline over head/tail truncation.
    pub prefer_outline: bool,
}

pub open spec fn min_nat(a: int, b: int) -> int {
    if a < b { a } else { b }
}

/// The policy of `name` with line budgets capped at `max(max_lines, 1)`:
/// `Read` is never age-cleared and prefers outlines (30/50 lines);
/// `WebFetch` clears above 2000 tokens (20/30); `Bash` above 4000 (25/40);
/// others above 4000 (30/50).
pub open spec fn policy_spec(name: Seq<char>, max_lines: int) -> ToolPolicy {
    let cap = if max_lines < 1 { 1 } else { max_lines };
    let (age, over, normal, outline): (Option<usize>, int, int, bool) = if name == "Read"@ {
        (None, 30, 50, true)
    } else if name == "WebFetch"@ {
        (Some(2000), 20, 30, false)
    } else if name == "Bash"@ {
        (Some(4000), 25, 40, false)
    } else {
        (Some(4000), 30, 50, false)
    };
    ToolPolicy {
        age_clear_threshold: age,
        oversize_max_lines: min_nat(over, cap) as usize,
        normal_max_lines: min_nat(normal, cap) as usize,
        prefer_outline: outline,
    }
}

/// Truncation policy for a tool.
pub fn tool_policy(tool_name: &str, max_lines: usize) -> (p: ToolPolicy)
    ensures
        p == policy_spec(tool_name@, max_lines as int),
{
    let cap = if max_lines < 1 { 1 } else { max_lines };
    let mut p = if str_eq(tool_name, "Read") {
        ToolPolicy { age_clear_threshold: None, oversize_max_lines: 30, normal_max_lines: 50, prefer_outline: true }
    } else if str_eq(tool_name, "WebFetch") {
        ToolPolicy { age_clear_threshold: Some(2000), oversize_max_lines: 20, normal_max_lines: 30, prefer_outline: false }
    } else if str_eq(tool_name, "Bash") {
        ToolPolicy { age_clear_threshold: Some(4000), oversize_max_lines: 25, normal_max_lines: 40, prefer_outline: false }
    } else {
        ToolPolicy { age_clear_threshold: Some(4000), oversize_max_lines: 30, normal_max_lines: 50, prefer_outline: false }
    };
    if cap < p.oversize_max_lines {
        p.oversize_max_lines = cap;
    }
    if cap < p.normal_max_lines {
        p.normal_max_lines = cap;
    }
    p
}

} // verus!
