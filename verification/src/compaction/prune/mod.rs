//! Prune: lossless compaction by deletion, decided by a judge.
//!
//! A summary rewrites history and loses exact paths, errors and commands.
//! This stage never rewrites: a judge is asked, per tool call, whether the
//! call and its result still matter to the ongoing task, and the stale ones
//! are dropped or truncated. User and assistant text is untouched.
//!
//! Deciding and applying are separate steps of a [`ledger::PruneLedger`].
//! The judge itself is asked by the caller: the ledger plans the questions
//! and takes the answers back.

pub mod candidates;
pub mod edit;
pub mod ledger;
pub mod options;
pub mod questions;
pub mod report;
pub mod requests;
pub mod state;
