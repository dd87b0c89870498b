//! Execution limits of the agent loop: turns, tokens and wall-clock time.

use vstd::prelude::*;
use crate::clock::{elapsed_ns, instant_now};
use crate::text::{dec, owned, push_dec, push_str, push_usize};

verus! {

/// Execution limits for the agent loop.
pub struct ExecutionLimits {
    /// Maximum number of turns (model calls).
    pub max_turns: usize,
    /// Maximum total tokens consumed.
    pub max_total_tokens: usize,
    /// Maximum wall-clock time, in nanoseconds.
    pub max_duration_ns: u64,
}

impl Default for ExecutionLimits {
    /// 50 turns, a million tokens, ten minutes.
    fn default() -> (r: Self)
        ensures
            r.max_turns == 50,
            r.max_total_tokens == 1_000_000,
            r.max_duration_ns == 600_000_000_000,
    {
        ExecutionLimits { max_turns: 50, max_total_tokens: 1_000_000, max_duration_ns: 600_000_000_000 }
    }
}

/// Tracks execution against limits.
pub struct ExecutionTracker {
    pub limits: ExecutionLimits,
    pub turns: usize,
    pub tokens_used: usize,
    /// When the run started, by the monotonic clock.
    pub started_at: std::time::Instant,
}

/// Whole seconds of `ns` nanoseconds, rounded to the nearest (ties to
/// even), as a `{:.0}` rendering of the seconds shows them.
pub open spec fn rounded_secs(ns: int) -> int {
    let q = ns / 1_000_000_000;
    let r = ns % 1_000_000_000;
    if r > 500_000_000 || (r == 500_000_000 && q % 2 == 1) { q + 1 } else { q }
}

/// Why the run must stop once `elapsed` nanoseconds have passed, if it
/// must: the turn limit is checked first, then the token limit, then the
/// time limit.
pub open spec fn limit_reason(t: ExecutionTracker, elapsed: int) -> Option<Seq<char>> {
    if t.turns >= t.limits.max_turns {
        Some("Max turns reached ("@ + dec(t.turns as nat) + "/"@ + dec(t.limits.max_turns as nat) + ")"@)
    } else if t.tokens_used >= t.limits.max_total_tokens {
        Some("Max tokens reached ("@ + dec(t.tokens_used as nat) + "/"@ + dec(t.limits.max_total_tokens as nat) + ")"@)
    } else {
        if elapsed >= t.limits.max_duration_ns {
            Some(
                "Max duration reached ("@ + dec(rounded_secs(elapsed) as nat) + "s/"@ + dec(
                    rounded_secs(t.limits.max_duration_ns as int) as nat,
                ) + "s)"@,
            )
        } else {
            None
        }
    }
}

fn secs_of(ns: u64) -> (r: u64)
    ensures
        r == rounded_secs(ns as int),
{
    let q = ns / 1_000_000_000;
    let r = ns % 1_000_000_000;
    if r > 500_000_000 || (r == 500_000_000 && q % 2 == 1) { q + 1 } else { q }
}

impl ExecutionTracker {
    /// A tracker with nothing used, started now by the clock.
    pub fn new(limits: ExecutionLimits) -> (r: ExecutionTracker)
        ensures
            r.limits == limits,
            r.turns == 0,
            r.tokens_used == 0,
    {
        ExecutionTracker { limits, turns: 0, tokens_used: 0, started_at: instant_now() }
    }

    /// Counts one turn and the tokens it used.
    pub fn record_turn(&mut self, tokens: usize)
        requires
            old(self).turns < usize::MAX,
            old(self).tokens_used + tokens <= usize::MAX,
        ensures
            final(self).turns == old(self).turns + 1,
            final(self).tokens_used == old(self).tokens_used + tokens,
            final(self).limits == old(self).limits,
            final(self).started_at == old(self).started_at,
    {
        self.turns = self.turns + 1;
        self.tokens_used = self.tokens_used + tokens;
    }

    /// Whether a limit is exceeded once `elapsed_ns` nanoseconds have passed
    /// since the start; the reason if so.
    pub fn check_limits_after(&self, elapsed_ns: u64) -> (r: Option<String>)
        ensures
            match r {
                Some(s) => limit_reason(*self, elapsed_ns as int) == Some(s@),
                None => limit_reason(*self, elapsed_ns as int) is None,
            },
    {
        if self.turns >= self.limits.max_turns {
            let mut s = owned("Max turns reached (");
            push_usize(&mut s, self.turns);
            push_str(&mut s, "/");
            push_usize(&mut s, self.limits.max_turns);
            push_str(&mut s, ")");
            return Some(s);
        }
        if self.tokens_used >= self.limits.max_total_tokens {
            let mut s = owned("Max tokens reached (");
            push_usize(&mut s, self.tokens_used);
            push_str(&mut s, "/");
            push_usize(&mut s, self.limits.max_total_tokens);
            push_str(&mut s, ")");
            return Some(s);
        }
        let elapsed = elapsed_ns;
        if elapsed >= self.limits.max_duration_ns {
            let mut s = owned("Max duration reached (");
            push_dec(&mut s, secs_of(elapsed));
            push_str(&mut s, "s/");
            push_dec(&mut s, secs_of(self.limits.max_duration_ns));
            push_str(&mut s, "s)");
            return Some(s);
        }
        None
    }

    /// Whether a limit is exceeded now, by the monotonic clock; the reason if
    /// so.
    pub fn check_limits(&self) -> (r: Option<String>)
        ensures
            exists|e: u64| #![trigger limit_reason(*self, e as int)]
                match r {
                    Some(s) => limit_reason(*self, e as int) == Some(s@),
                    None => limit_reason(*self, e as int) is None,
                },
    {
        self.check_limits_after(elapsed_ns(&self.started_at))
    }
}

} // verus!
