//! Context compaction: planning what to keep, lossless and lossy passes
//! over the message list, and the controller that drives them.

pub mod compact;
pub mod config;
pub mod controller;
pub mod emergency;
pub mod pass;
pub mod passes;
pub mod phase;
pub mod phases;
pub mod pipeline;
pub mod file_ops;
pub mod marker;
pub mod memory;
pub mod metadata;
pub mod plan;
pub mod planner;
pub mod policy;
pub mod pressure;
pub mod remote;
pub mod session;
pub mod prune;
pub mod types;
