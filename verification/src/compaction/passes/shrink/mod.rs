//! Shrink pass: budget-gated truncation of oversized tool results and user
//! messages.

pub mod outline;
pub mod pass;
pub mod strategy;
pub mod truncate;
