//! The agent's prompt queues.

pub mod queue;

pub use queue::QueueMode;
