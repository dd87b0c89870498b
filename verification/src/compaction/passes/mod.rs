//! The structural compaction passes, in pipeline order.

pub mod clear_expired;
pub mod collapse;
pub mod evict;
pub mod microcompact;
pub mod reclaim;
pub mod shrink;
