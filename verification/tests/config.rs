use bendengine::compaction::config::{pct_of, truncate_summary, CompactionConfig, SUMMARY_TRUNCATION_MARKER};
use bendengine::compaction::policy::{is_compactable_tool_name, is_compactable_tool_result, tool_policy};
use bendengine::context::ContextConfig;

#[test]
fn the_default_configuration_derives_its_budgets() {
    let c = CompactionConfig::default_config();
    assert_eq!(c.context_window, 128_000);
    assert_eq!(c.budget_tokens, 111_616);
    assert_eq!(c.trigger_threshold(), 111_616);
    assert_eq!(c.compact_trigger(), 89_292);
    assert_eq!(c.compact_target(), 66_969);
    assert_eq!(c.post_compaction_target(), 40_000);
    assert_eq!(c.summary_reserve_tokens(), 8_192);
    assert_eq!(c.summary_max_bytes(), 32_768);
    assert_eq!(c.retained_tail_budget(0), 31_808);
    assert_eq!(c.retained_tail_budget(1_000), 30_808);
    assert_eq!(c.summarizer_input_max_bytes(), 446_464);
}

#[test]
fn a_small_window_shrinks_every_budget() {
    let c = CompactionConfig::from_context_window(10_000);
    assert_eq!(c.budget_tokens, 0);
    assert_eq!(c.trigger_threshold(), 0);
    assert_eq!(c.post_compaction_target(), 10_000);
    assert_eq!(c.summary_reserve_tokens(), 5_000);
    assert_eq!(c.summary_max_bytes(), 20_000);
    assert_eq!(c.retained_tail_budget(0), 5_000);
    assert_eq!(c.retained_tail_budget(6_000), 0);
    assert_eq!(c.summarizer_input_max_bytes(), 20_000);
}

#[test]
fn an_unknown_window_uses_the_absolute_ceilings() {
    let c = CompactionConfig::from_context_window(0);
    assert_eq!(c.post_compaction_target(), 40_000);
    assert_eq!(c.summarizer_input_max_bytes(), 524_288);
}

#[test]
fn an_explicit_trigger_never_exceeds_the_window() {
    let mut c = CompactionConfig::default_config();
    c.trigger_tokens = Some(200_000);
    assert_eq!(c.trigger_threshold(), 128_000);
    c.trigger_tokens = Some(50_000);
    assert_eq!(c.trigger_threshold(), 50_000);
}

#[test]
fn a_context_configuration_overrides_the_defaults_it_sets() {
    let mut ctx = ContextConfig::default_config();
    ctx.reserve_tokens = Some(1_000);
    ctx.keep_recent_tokens = Some(2_000);
    ctx.keep_recent = 4;
    let c = CompactionConfig::from_context_config(&ctx);
    assert_eq!(c.context_window, 100_000);
    assert_eq!(c.reserve_tokens, 1_000);
    assert_eq!(c.keep_recent_tokens, 2_000);
    assert_eq!(c.budget_tokens, 96_000);
    assert_eq!(c.keep_recent, 4);
    assert_eq!(c.keep_first, 2);
    assert_eq!(c.trigger_threshold(), 99_000);
}

#[test]
fn percentages_round_down() {
    assert_eq!(pct_of(111_616, 80), 89_292);
    assert_eq!(pct_of(0, 80), 0);
    assert_eq!(pct_of(7, 50), 3);
}

#[test]
fn a_summary_that_fits_is_unchanged() {
    assert_eq!(truncate_summary("hello", 10), "hello");
    assert_eq!(truncate_summary("hello", 5), "hello");
    assert_eq!(truncate_summary("hello", 0), "");
}

#[test]
fn without_room_for_the_marker_only_the_head_is_kept() {
    assert_eq!(SUMMARY_TRUNCATION_MARKER.len(), 42);
    assert_eq!(truncate_summary("abcdefghij", 3), "abc");
    // Never cuts a character in half.
    assert_eq!(truncate_summary("ééé", 3), "é");
}

#[test]
fn a_long_summary_keeps_its_head_and_tail() {
    let s = format!("{}{}", "a".repeat(50), "b".repeat(50));
    let r = truncate_summary(&s, 72);
    // 30 bytes of content: 20 of head, 10 of tail.
    assert_eq!(
        r,
        format!("{}{}{}", "a".repeat(20), SUMMARY_TRUNCATION_MARKER, "b".repeat(10))
    );
    assert_eq!(r.len(), 72);
}

#[test]
fn compactable_results_are_large_results_of_known_tools() {
    assert!(is_compactable_tool_name("Read"));
    assert!(is_compactable_tool_name("WebFetch"));
    assert!(!is_compactable_tool_name("read"));
    assert!(!is_compactable_tool_name("Grep"));
    assert!(is_compactable_tool_result("Bash", 200));
    assert!(!is_compactable_tool_result("Bash", 199));
    assert!(!is_compactable_tool_result("Grep", 5_000));
}

#[test]
fn each_tool_has_its_own_truncation_policy() {
    let read = tool_policy("Read", 100);
    assert_eq!(read.age_clear_threshold, None);
    assert_eq!((read.oversize_max_lines, read.normal_max_lines), (30, 50));
    assert!(read.prefer_outline);
    let web = tool_policy("WebFetch", 100);
    assert_eq!(web.age_clear_threshold, Some(2_000));
    assert_eq!((web.oversize_max_lines, web.normal_max_lines), (20, 30));
    let bash = tool_policy("Bash", 100);
    assert_eq!(bash.age_clear_threshold, Some(4_000));
    assert_eq!((bash.oversize_max_lines, bash.normal_max_lines), (25, 40));
    let other = tool_policy("Grep", 35);
    assert_eq!(other.age_clear_threshold, Some(4_000));
    assert_eq!((other.oversize_max_lines, other.normal_max_lines), (30, 35));
    assert!(!other.prefer_outline);
    let tiny = tool_policy("Bash", 0);
    assert_eq!((tiny.oversize_max_lines, tiny.normal_max_lines), (1, 1));
}
