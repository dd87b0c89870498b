//! Context engine for a coding agent: token accounting, compaction passes,
//! compaction planning and judge-driven pruning.

pub mod agent;
pub mod api;
pub mod clock;
pub mod compaction;
pub mod context;
pub mod json;
pub mod sanitize;
pub mod text;
pub mod tokens;
pub mod types;
