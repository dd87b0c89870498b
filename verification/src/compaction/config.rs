//! Compaction configuration: every tunable parameter in one place, and the
//! budgets derived from them.

use vstd::prelude::*;
use crate::text::{chars_of, fit_prefix, fit_prefix_len, fit_suffix, fit_suffix_len, owned, push_chars, push_str, take_vec, slice_vec, string_of, lemma_fit_prefix_bytes, lemma_fit_suffix_bytes, lemma_byte_len_concat};
use crate::tokens::{byte_len, sat};
use crate::context::ContextConfig;

verus! {

/// Tokens reserved for a generated summary.
pub const DEFAULT_SUMMARY_RESERVE_TOKENS: u32 = 8_192;
/// Tokens reserved for output, system prompt and tool definitions.
pub const DEFAULT_RESERVE_TOKENS: usize = 16_384;
/// Maximum context retained immediately after compaction.
pub const DEFAULT_POST_COMPACTION_TOKENS: usize = 40_000;
/// Default retained-message ceiling before request overhead is deducted.
pub const DEFAULT_KEEP_RECENT_TOKENS: usize = 31_808;
/// Maximum UTF-8 bytes of a summary inserted back into the context.
pub const DEFAULT_SUMMARY_MAX_BYTES: usize = 32_768;
/// Absolute byte ceiling for one complete summarizer prompt.
pub const SUMMARIZER_INPUT_MAX_BYTES: usize = 524_288;
/// Bytes per token assumed when converting token budgets to bytes.
pub const ESTIMATED_BYTES_PER_TOKEN: usize = 4;
/// The note placed where a summary was cut.
pub const SUMMARY_TRUNCATION_MARKER: &'static str = "\n\n[… compaction summary truncated …]\n\n";

/// How summaries are generated.
#[derive(Clone, Copy, Debug, PartialEq, Eq, Structural)]
pub enum SummarizerMode {
    /// A structured summary written by the model, deterministic fallback.
    Structured,
}

impl SummarizerMode {
    pub fn default_mode() -> (r: SummarizerMode)
        ensures
            r == SummarizerMode::Structured,
    {
        SummarizerMode::Structured
    }

    /// Tokens this mode reserves for the summary it writes.
    pub fn reserve_tokens(&self) -> (r: u32)
        ensures
            r == DEFAULT_SUMMARY_RESERVE_TOKENS,
    {
        DEFAULT_SUMMARY_RESERVE_TOKENS
    }
}

/// A summary bounded to `max` UTF-8 bytes: unchanged when it fits; else its
/// head (two thirds of the room) and its tail around the truncation marker;
/// when even the marker does not fit, only the head that fits.
pub open spec fn truncated_summary(s: Seq<char>, max: int) -> Seq<char> {
    let m = SUMMARY_TRUNCATION_MARKER@;
    if byte_len(s) <= max {
        s
    } else if max == 0 {
        Seq::empty()
    } else if max <= byte_len(m) {
        s.take(fit_prefix(s, max) as int)
    } else {
        let c = max - byte_len(m);
        let head = s.take(fit_prefix(s, c * 2 / 3) as int);
        let tail_budget = c - byte_len(head);
        head + m + s.skip(s.len() - fit_suffix(s, tail_budget))
    }
}

/// Bounds a compaction summary to `max_bytes` UTF-8 bytes, keeping both its
/// overview and its latest conclusion; the result is always valid UTF-8.
pub fn truncate_summary(summary: &str, max_bytes: usize) -> (r: String)
    ensures
        r@ == truncated_summary(summary@, max_bytes as int),
        byte_len(r@) <= max_bytes || byte_len(summary@) <= max_bytes,
{
    let n = summary.as_bytes().len();
    if n <= max_bytes {
        return owned(summary);
    }
    if max_bytes == 0 {
        return String::new();
    }
    let marker_len = SUMMARY_TRUNCATION_MARKER.as_bytes().len();
    let v = chars_of(summary);
    if max_bytes <= marker_len {
        let k = fit_prefix_len(&v, max_bytes);
        let head = take_vec(&v, k);
        proof {
            lemma_fit_prefix_bytes(v@, max_bytes as int);
        }
        return string_of(&head);
    }
    let content = max_bytes - marker_len;
    let head_budget = content - (content / 3 + if content % 3 == 0 { 0 } else { 1 });
    assert(head_budget == content * 2 / 3);
    let hk = fit_prefix_len(&v, head_budget);
    let head = take_vec(&v, hk);
    let head_str = string_of(&head);
    let head_bytes = head_str.as_str().as_bytes().len();
    proof {
        lemma_fit_prefix_bytes(v@, head_budget as int);
    }
    let tail_budget = content - head_bytes;
    let tk = fit_suffix_len(&v, tail_budget);
    let tail = slice_vec(&v, v.len() - tk, v.len());
    let mut r = head_str;
    push_str(&mut r, SUMMARY_TRUNCATION_MARKER);
    push_chars(&mut r, &tail);
    proof {
        lemma_fit_suffix_bytes(v@, tail_budget as int);
        assert(v@.subrange(v@.len() - tk, v@.len() as int) =~= v@.skip(v@.len() - tk));
        let m = SUMMARY_TRUNCATION_MARKER@;
        lemma_byte_len_concat(head@ + m, tail@);
        lemma_byte_len_concat(head@, m);
    }
    r
}

/// `pct` percent of `x`, rounded down (saturating).
pub fn pct_of(x: usize, pct: u8) -> (r: usize)
    ensures
        r == sat(x * (pct as int) / 100),
{
    let a = x as u128;
    let b = pct as u128;
    assert(a * b <= 0xffff_ffff_ffff_ffff * 255) by (nonlinear_arith)
        requires a <= 0xffff_ffff_ffff_ffff, b <= 255;
    let p = a * b / 100;
    if p > usize::MAX as u128 {
        usize::MAX
    } else {
        p as usize
    }
}

/// A compaction configuration built from a context configuration: the
/// fields the user set, defaults for the rest.
pub open spec fn derived_config(r: CompactionConfig, ctx: ContextConfig) -> bool {
    &&& r.context_window == ctx.max_context_tokens
    &&& r.reserve_tokens == match ctx.reserve_tokens { Some(v) => v, None => DEFAULT_RESERVE_TOKENS }
    &&& r.trigger_tokens == ctx.trigger_tokens
    &&& r.keep_recent_tokens == match ctx.keep_recent_tokens { Some(v) => v, None => DEFAULT_KEEP_RECENT_TOKENS }
    &&& r.summarizer_mode == SummarizerMode::Structured
    &&& r.summary_max_bytes == DEFAULT_SUMMARY_MAX_BYTES
    &&& r.budget_tokens == (if ctx.max_context_tokens >= ctx.system_prompt_tokens { ctx.max_context_tokens - ctx.system_prompt_tokens } else { 0 })
    &&& r.compact_trigger_pct == 80
    &&& r.compact_target_pct == 60
    &&& r.keep_recent == ctx.keep_recent
    &&& r.keep_first == ctx.keep_first
    &&& r.max_messages == ctx.max_messages
    &&& r.message_limit_target_pct == ctx.message_limit_target_pct
    &&& r.tool_output_max_lines == ctx.tool_output_max_lines
    &&& r.oversize_abs_tokens == 6_000
    &&& r.oversize_budget_ppm == 200_000
    &&& r.microcompact_trigger == 10
    &&& r.microcompact_keep_full == 3
    &&& r.microcompact_keep_meta == 5
    &&& r.microcompact_keep_images == 2
}

/// Every compaction parameter.
pub struct CompactionConfig {
    /// Effective request-input limit of the active model.
    pub context_window: usize,
    /// Tokens reserved for output, system prompt and tool definitions.
    pub reserve_tokens: usize,
    /// Explicit trigger; `None` uses `context_window - reserve_tokens`.
    pub trigger_tokens: Option<usize>,
    /// Token budget of the retained tail.
    pub keep_recent_tokens: usize,
    pub summarizer_mode: SummarizerMode,
    /// Maximum UTF-8 bytes retained in a generated summary.
    pub summary_max_bytes: usize,
    /// Message budget of the structural passes.
    pub budget_tokens: usize,
    /// Percentage of the budget above which structural compaction starts.
    pub compact_trigger_pct: u8,
    /// Percentage of the budget structural compaction aims for.
    pub compact_target_pct: u8,
    /// Newest messages kept in full by the structural passes.
    pub keep_recent: usize,
    /// Oldest messages pinned by the structural passes.
    pub keep_first: usize,
    /// Message-count ceiling (0: none).
    pub max_messages: usize,
    /// Share of `max_messages` to evict down to, in percent.
    pub message_limit_target_pct: u8,
    /// Line budget of a truncated tool output.
    pub tool_output_max_lines: usize,
    /// A single result above this many tokens is oversized.
    pub oversize_abs_tokens: usize,
    /// A single result above this share of the budget (millionths) is oversized.
    pub oversize_budget_ppm: u32,
    /// Compactable tool results that make microcompaction run.
    pub microcompact_trigger: usize,
    /// Newest compactable results kept in full.
    pub microcompact_keep_full: usize,
    /// Next compactable results reduced to metadata.
    pub microcompact_keep_meta: usize,
    /// Newest image-bearing user messages kept intact.
    pub microcompact_keep_images: usize,
}

/// The default configuration for an effective input limit.
pub open spec fn config_for_window(c: CompactionConfig, w: usize) -> bool {
    &&& c.context_window == w
    &&& c.reserve_tokens == DEFAULT_RESERVE_TOKENS
    &&& c.trigger_tokens is None
    &&& c.keep_recent_tokens == DEFAULT_KEEP_RECENT_TOKENS
    &&& c.summarizer_mode == SummarizerMode::Structured
    &&& c.summary_max_bytes == DEFAULT_SUMMARY_MAX_BYTES
    &&& c.budget_tokens == (if w >= DEFAULT_RESERVE_TOKENS { w - DEFAULT_RESERVE_TOKENS } else { 0 })
    &&& c.compact_trigger_pct == 80
    &&& c.compact_target_pct == 60
    &&& c.keep_recent == 10
    &&& c.keep_first == 2
    &&& c.max_messages == 0
    &&& c.message_limit_target_pct == 80
    &&& c.tool_output_max_lines == 50
    &&& c.oversize_abs_tokens == 6_000
    &&& c.oversize_budget_ppm == 200_000
    &&& c.microcompact_trigger == 10
    &&& c.microcompact_keep_full == 3
    &&& c.microcompact_keep_meta == 5
    &&& c.microcompact_keep_images == 2
}

impl CompactionConfig {
    /// Derive a configuration from an effective request-input limit.
    pub fn from_context_window(context_window: usize) -> (r: CompactionConfig)
        ensures
            config_for_window(r, context_window),
    {
        CompactionConfig {
            context_window,
            reserve_tokens: DEFAULT_RESERVE_TOKENS,
            trigger_tokens: None,
            keep_recent_tokens: DEFAULT_KEEP_RECENT_TOKENS,
            summarizer_mode: SummarizerMode::Structured,
            summary_max_bytes: DEFAULT_SUMMARY_MAX_BYTES,
            budget_tokens: context_window.saturating_sub(DEFAULT_RESERVE_TOKENS),
            compact_trigger_pct: 80,
            compact_target_pct: 60,
            keep_recent: 10,
            keep_first: 2,
            max_messages: 0,
            message_limit_target_pct: 80,
            tool_output_max_lines: 50,
            oversize_abs_tokens: 6_000,
            oversize_budget_ppm: 200_000,
            microcompact_trigger: 10,
            microcompact_keep_full: 3,
            microcompact_keep_meta: 5,
            microcompact_keep_images: 2,
        }
    }

    /// The configuration for a 128k-token window.
    pub fn default_config() -> (r: CompactionConfig)
        ensures
            config_for_window(r, 128_000),
    {
        Self::from_context_window(128_000)
    }

    /// Build from a context configuration, respecting the fields the user set.
    pub fn from_context_config(ctx: &ContextConfig) -> (r: CompactionConfig)
        ensures
            derived_config(r, *ctx),
    {
        let mut cfg = Self::from_context_window(ctx.max_context_tokens);
        if let Some(reserve) = ctx.reserve_tokens {
            cfg.reserve_tokens = reserve;
        }
        cfg.trigger_tokens = ctx.trigger_tokens;
        if let Some(keep_recent) = ctx.keep_recent_tokens {
            cfg.keep_recent_tokens = keep_recent;
        }
        cfg.budget_tokens = ctx.max_context_tokens.saturating_sub(ctx.system_prompt_tokens);
        cfg.keep_recent = ctx.keep_recent;
        cfg.keep_first = ctx.keep_first;
        cfg.max_messages = ctx.max_messages;
        cfg.message_limit_target_pct = ctx.message_limit_target_pct;
        cfg.tool_output_max_lines = ctx.tool_output_max_lines;
        cfg
    }

    pub open spec fn spec_post_compaction_target(&self) -> int {
        if self.context_window == 0 {
            DEFAULT_POST_COMPACTION_TOKENS as int
        } else if self.context_window < DEFAULT_POST_COMPACTION_TOKENS {
            self.context_window as int
        } else {
            DEFAULT_POST_COMPACTION_TOKENS as int
        }
    }

    /// Context size aimed for right after compaction.
    pub fn post_compaction_target(&self) -> (r: usize)
        ensures
            r == self.spec_post_compaction_target(),
    {
        if self.context_window == 0 {
            DEFAULT_POST_COMPACTION_TOKENS
        } else if self.context_window < DEFAULT_POST_COMPACTION_TOKENS {
            self.context_window
        } else {
            DEFAULT_POST_COMPACTION_TOKENS
        }
    }

    pub open spec fn spec_summary_reserve_tokens(&self) -> int {
        let half = self.spec_post_compaction_target() / 2;
        if (DEFAULT_SUMMARY_RESERVE_TOKENS as int) < half {
            DEFAULT_SUMMARY_RESERVE_TOKENS as int
        } else {
            half
        }
    }

    /// Summary budget; tiny windows keep at least half of the post-compaction
    /// envelope for retained context.
    pub fn summary_reserve_tokens(&self) -> (r: usize)
        ensures
            r == self.spec_summary_reserve_tokens(),
    {
        let reserve = self.summarizer_mode.reserve_tokens() as usize;
        let half = self.post_compaction_target() / 2;
        if reserve < half {
            reserve
        } else {
            half
        }
    }

    /// Effective byte bound for summaries.
    pub fn summary_max_bytes(&self) -> (r: usize)
        ensures
            r == (if (self.summary_max_bytes as int) < self.spec_summary_reserve_tokens() * 4 {
                self.summary_max_bytes as int
            } else {
                self.spec_summary_reserve_tokens() * 4
            }),
    {
        let by_tokens = self.summary_reserve_tokens() * ESTIMATED_BYTES_PER_TOKEN;
        if self.summary_max_bytes < by_tokens {
            self.summary_max_bytes
        } else {
            by_tokens
        }
    }

    pub open spec fn spec_retained_tail_budget(&self, overhead: int) -> int {
        let e0 = self.spec_post_compaction_target() - self.spec_summary_reserve_tokens();
        let e1 = if e0 < 0 { 0 } else { e0 };
        let e2 = if e1 - overhead < 0 { 0 } else { e1 - overhead };
        if (self.keep_recent_tokens as int) < e2 {
            self.keep_recent_tokens as int
        } else {
            e2
        }
    }

    /// Retained-message budget inside the post-compaction envelope.
    pub fn retained_tail_budget(&self, request_overhead_tokens: usize) -> (r: usize)
        ensures
            r == self.spec_retained_tail_budget(request_overhead_tokens as int),
    {
        let envelope = self.post_compaction_target().saturating_sub(self.summary_reserve_tokens()).saturating_sub(
            request_overhead_tokens,
        );
        if self.keep_recent_tokens < envelope {
            self.keep_recent_tokens
        } else {
            envelope
        }
    }

    /// Input budget of one summarizer prompt: the window minus output
    /// headroom, in bytes, under the absolute ceiling.
    pub fn summarizer_input_max_bytes(&self) -> (r: usize)
        ensures
            self.context_window == 0 ==> r == SUMMARIZER_INPUT_MAX_BYTES,
            self.context_window > 0 ==> {
                let headroom = if self.reserve_tokens < self.context_window / 2 { self.reserve_tokens as int } else { (self.context_window / 2) as int };
                let bytes = (self.context_window - headroom) * 4;
                r == if bytes < SUMMARIZER_INPUT_MAX_BYTES { bytes } else { SUMMARIZER_INPUT_MAX_BYTES as int }
            },
    {
        if self.context_window == 0 {
            return SUMMARIZER_INPUT_MAX_BYTES;
        }
        let half = self.context_window / 2;
        let headroom = if self.reserve_tokens < half { self.reserve_tokens } else { half };
        let base = (self.context_window - headroom) as u128;
        assert(base * 4 <= 0xffff_ffff_ffff_ffff * 4) by (nonlinear_arith)
            requires base <= 0xffff_ffff_ffff_ffff;
        let bytes: u128 = base * (ESTIMATED_BYTES_PER_TOKEN as u128);
        if bytes < SUMMARIZER_INPUT_MAX_BYTES as u128 {
            bytes as usize
        } else {
            SUMMARIZER_INPUT_MAX_BYTES
        }
    }

    pub open spec fn spec_trigger_threshold(&self) -> int {
        let t = match self.trigger_tokens {
            Some(v) => v as int,
            None => if self.context_window >= self.reserve_tokens { self.context_window - self.reserve_tokens } else { 0 },
        };
        if t < self.context_window { t } else { self.context_window as int }
    }

    /// Token count that triggers summary compaction (never above the window).
    pub fn trigger_threshold(&self) -> (r: usize)
        ensures
            r == self.spec_trigger_threshold(),
    {
        let t = match self.trigger_tokens {
            Some(v) => v,
            None => self.context_window.saturating_sub(self.reserve_tokens),
        };
        if t < self.context_window {
            t
        } else {
            self.context_window
        }
    }

    pub open spec fn spec_compact_trigger(&self) -> int {
        sat(self.budget_tokens * (self.compact_trigger_pct as int) / 100)
    }

    /// Message tokens above which the structural passes start.
    pub fn compact_trigger(&self) -> (r: usize)
        ensures
            r == self.spec_compact_trigger(),
    {
        pct_of(self.budget_tokens, self.compact_trigger_pct)
    }

    pub open spec fn spec_compact_target(&self) -> int {
        sat(self.budget_tokens * (self.compact_target_pct as int) / 100)
    }

    /// Message tokens the structural passes aim for.
    pub fn compact_target(&self) -> (r: usize)
        ensures
            r == self.spec_compact_target(),
    {
        pct_of(self.budget_tokens, self.compact_target_pct)
    }
}

} // verus!
