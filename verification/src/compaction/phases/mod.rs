//! Compaction phases over the whole message list.

pub mod image_path_downgrade;
