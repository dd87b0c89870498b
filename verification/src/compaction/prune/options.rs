//! Prune policy.

use vstd::prelude::*;

verus! {

/// How pruning decides and applies. Shares and probabilities are in parts
/// per million.
pub struct PruneOptions {
    /// Newest messages never touched (the first message is always kept).
    pub preserve_recent: usize,
    /// Minimum keep probability for a call or a result to stay.
    pub keep_threshold_ppm: u32,
    /// Judge requests in flight at once during one decide round.
    pub decide_concurrency: usize,
    /// Characters of a dropped result kept before its note.
    pub truncate_head_chars: usize,
    /// Ask the judge again once the context grew by this many tokens.
    pub decide_growth_tokens: usize,
    /// Do not ask for fewer undecided candidates than this.
    pub decide_min_candidates: usize,
    /// Apply when pending savings reach this share of the context.
    pub apply_min_share_ppm: u32,
    /// Apply regardless of share once the main model's cache is cold.
    pub cache_ttl_ms: u64,
    /// Judge requests per decide round.
    pub max_requests_per_decide: usize,
    /// A `Keep` is asked again once the context grew by this many tokens.
    pub revisit_kept_tokens: usize,
}

impl Default for PruneOptions {
    fn default() -> (r: Self)
        ensures
            r.preserve_recent == 6,
            r.keep_threshold_ppm == 500_000,
            r.decide_concurrency == 4,
            r.truncate_head_chars == 300,
            r.decide_growth_tokens == 15_000,
            r.decide_min_candidates == 8,
            r.apply_min_share_ppm == 200_000,
            r.cache_ttl_ms == 300_000,
            r.max_requests_per_decide == 10,
            r.revisit_kept_tokens == 40_000,
    {
        PruneOptions {
            preserve_recent: 6,
            keep_threshold_ppm: 500_000,
            decide_concurrency: 4,
            truncate_head_chars: 300,
            decide_growth_tokens: 15_000,
            decide_min_candidates: 8,
            apply_min_share_ppm: 200_000,
            cache_ttl_ms: 300_000,
            max_requests_per_decide: 10,
            revisit_kept_tokens: 40_000,
        }
    }
}

} // verus!
