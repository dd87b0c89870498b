//! The interface every structural pass implements.

use vstd::prelude::*;
use super::config::CompactionConfig;
use super::pressure::Pressure;
use super::types::CompactionAction;
use crate::types::AgentMessage;

verus! {

/// The passes, in pipeline order.
#[derive(Clone, Copy, Debug, PartialEq, Eq, Structural)]
pub enum PassLevel {
    Reclaim,
    Shrink,
    Microcompact,
    Collapse,
    Evict,
}

/// The rank of a level, `0` for `Reclaim` up to `4` for `Evict`.
pub open spec fn level_rank(l: PassLevel) -> u8 {
    match l {
        PassLevel::Reclaim => 0,
        PassLevel::Shrink => 1,
        PassLevel::Microcompact => 2,
        PassLevel::Collapse => 3,
        PassLevel::Evict => 4,
    }
}

impl PassLevel {
    pub fn as_u8(self) -> (r: u8)
        ensures
            r == level_rank(self),
    {
        match self {
            PassLevel::Reclaim => 0,
            PassLevel::Shrink => 1,
            PassLevel::Microcompact => 2,
            PassLevel::Collapse => 3,
            PassLevel::Evict => 4,
        }
    }
}

/// What a pass decides on: the configuration and the pressure of the
/// messages it is handed.
pub struct PassContext<'a> {
    pub config: &'a CompactionConfig,
    pub pressure: Pressure,
}

/// The rewritten messages and what was done to them.
pub struct PassResult {
    pub messages: Vec<AgentMessage>,
    pub actions: Vec<CompactionAction>,
}

/// A configuration whose line budgets the truncation arithmetic can hold: a
/// text cut keeps `max_lines * 120` characters and takes three fifths of
/// them, so `max_lines * 120 * 3` must fit in a `usize`, which is exactly
/// `max_lines <= usize::MAX / 360`; beyond it the computation overflows.
pub open spec fn config_ok(c: CompactionConfig) -> bool {
    c.tool_output_max_lines <= usize::MAX / 360
}

/// One structural pass of the pipeline.
pub trait Pass {
    fn level(&self) -> PassLevel;

    fn should_run(&self, ctx: &PassContext) -> bool;

    fn run(&self, messages: Vec<AgentMessage>, ctx: &PassContext) -> PassResult
        requires
            config_ok(*ctx.config),
    ;
}

} // verus!
