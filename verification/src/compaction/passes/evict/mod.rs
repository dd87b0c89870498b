//! Evict pass: removes a stale span of messages, leaving a marker, only when
//! the smaller passes cannot fit the context.

pub mod apply;
pub mod bounds;
pub mod pass;
pub mod planner;
pub mod units;

use vstd::prelude::*;
use crate::types::{AgentMessage, AgentMessageV};

verus! {

/// The messages `[start, end)`.
#[derive(Clone, Copy, Debug, PartialEq, Eq, Structural)]
pub struct Span {
    pub start: usize,
    pub end: usize,
}

impl Span {
    pub fn len(self) -> (r: usize)
        requires
            self.start <= self.end,
        ensures
            r == self.end - self.start,
    {
        self.end - self.start
    }
}

/// A span to evict, the marker that replaces it, and the marker's tokens.
pub struct EvictionPlan {
    pub span: Span,
    pub marker: Option<AgentMessage>,
    pub after_tokens: usize,
}

/// Mathematical view of a plan.
pub ghost struct PlanV {
    pub span: Span,
    pub marker: Option<AgentMessageV>,
    pub after_tokens: int,
}

impl View for EvictionPlan {
    type V = PlanV;

    open spec fn view(&self) -> PlanV {
        PlanV {
            span: self.span,
            marker: match self.marker {
                Some(m) => Some(m@),
                None => None,
            },
            after_tokens: self.after_tokens as int,
        }
    }
}

} // verus!
