use bendengine::context::limits::{ExecutionLimits, ExecutionTracker};
use bendengine::context::tiered::{
    compact_messages_at, level1_truncate_tool_outputs, level2_summarize_old_turns, level3_drop_middle,
};
use bendengine::context::{truncate_text_head_tail, ContextConfig};
use bendengine::sanitize::sanitize_tool_pairs;
use bendengine::tokens::total_tokens;
use bendengine::types::{AgentMessage, Content, Message, Retention, StopReason, Usage};

fn user(text: &str) -> AgentMessage {
    AgentMessage::Llm(Message::User {
        content: vec![Content::Text { text: text.into() }],
        timestamp: 0,
    })
}

fn assistant(content: Vec<Content>) -> AgentMessage {
    AgentMessage::Llm(Message::Assistant {
        content,
        stop_reason: StopReason::ToolUse,
        model: "m".into(),
        provider: "p".into(),
        usage: Usage {
            input: 0,
            output: 0,
            cache_read: 0,
            cache_write: 0,
        },
        timestamp: 0,
        error_message: None,
        response_id: None,
    })
}

fn call(id: &str) -> Content {
    Content::ToolCall {
        id: id.into(),
        name: "bash".into(),
        arguments: "{}".into(),
    }
}

fn result(id: &str, text: &str) -> AgentMessage {
    AgentMessage::Llm(Message::ToolResult {
        tool_call_id: id.into(),
        tool_name: "bash".into(),
        content: vec![Content::Text { text: text.into() }],
        is_error: false,
        timestamp: 0,
        retention: Retention::Normal,
    })
}

fn text_of(m: &AgentMessage) -> String {
    match m {
        AgentMessage::Llm(Message::User { content, .. })
        | AgentMessage::Llm(Message::Assistant { content, .. })
        | AgentMessage::Llm(Message::ToolResult { content, .. }) => content
            .iter()
            .filter_map(|c| match c {
                Content::Text { text } => Some(text.as_str()),
                _ => None,
            })
            .collect::<Vec<_>>()
            .join(""),
        _ => String::new(),
    }
}

fn numbered(n: usize) -> String {
    (1..=n).map(|i| format!("line {i}")).collect::<Vec<_>>().join("\n")
}

#[test]
fn head_tail_keeps_half_of_the_budget_at_each_end() {
    let text = "a\nb\nc\nd\ne";
    assert_eq!(
        truncate_text_head_tail(text, 2),
        "a\n\n[... 3 lines truncated ...]\n\ne"
    );
    assert_eq!(truncate_text_head_tail(text, 3), "a\n\n[... 2 lines truncated ...]\n\nd\ne");
}

#[test]
fn head_tail_leaves_short_text_alone() {
    assert_eq!(truncate_text_head_tail("a\nb", 2), "a\nb");
    assert_eq!(truncate_text_head_tail("", 0), "");
}

#[test]
fn level1_counts_only_the_results_it_shortened() {
    let messages = vec![
        user("go"),
        assistant(vec![call("1"), call("2")]),
        result("1", &numbered(100)),
        result("2", "short"),
    ];
    let (out, count) = level1_truncate_tool_outputs(&messages, 10);
    assert_eq!(count, 1);
    assert_eq!(out.len(), 4);
    let cut = text_of(&out[2]);
    assert!(cut.starts_with("line 1\nline 2\nline 3\nline 4\nline 5\n\n[... 90 lines truncated ...]"));
    assert!(cut.ends_with("line 100"));
    assert_eq!(text_of(&out[3]), "short");
}

#[test]
fn level2_summarizes_old_turns_and_drops_their_results() {
    let messages = vec![
        user("start"),
        assistant(vec![Content::Text { text: "looking".into() }, call("1")]),
        result("1", "output"),
        assistant(vec![call("2")]),
        result("2", "more"),
        user("recent"),
    ];
    let (out, turns) = level2_summarize_old_turns(&messages, 1, 42);
    assert_eq!(turns, 2);
    let texts: Vec<String> = out.iter().map(text_of).collect();
    assert_eq!(
        texts,
        vec![
            "start".to_string(),
            "[Summary] looking".to_string(),
            "[Summary] [Assistant used 1 tool(s)]".to_string(),
            "recent".to_string(),
        ]
    );
    match &out[1] {
        AgentMessage::Llm(Message::User { timestamp, .. }) => assert_eq!(*timestamp, 42),
        _ => panic!("summary is a user message"),
    }
}

#[test]
fn level2_leaves_a_short_history_alone() {
    let messages = vec![user("a"), user("b")];
    let (out, turns) = level2_summarize_old_turns(&messages, 5, 0);
    assert_eq!(turns, 0);
    assert_eq!(out.len(), 2);
}

#[test]
fn level3_keeps_the_ends_around_a_note() {
    let messages: Vec<AgentMessage> = (0..10).map(|i| user(&format!("m{i}"))).collect();
    let (out, dropped) = level3_drop_middle(&messages, 2, 3, 1_000_000, 7);
    assert_eq!(dropped, 5);
    let texts: Vec<String> = out.iter().map(text_of).collect();
    assert_eq!(
        texts,
        vec![
            "m0".to_string(),
            "m1".to_string(),
            "[Context compacted: 5 messages removed to fit context window]".to_string(),
            "m7".to_string(),
            "m8".to_string(),
            "m9".to_string(),
        ]
    );
}

#[test]
fn level3_falls_back_to_what_fits_of_the_newest() {
    let messages: Vec<AgentMessage> = (0..10).map(|i| user(&format!("m{i}"))).collect();
    // A budget of two messages: the two newest fit, the note in front of
    // them does not.
    let per = total_tokens(&messages[..1]);
    let (out, dropped) = level3_drop_middle(&messages, 2, 3, per * 2, 0);
    let texts: Vec<String> = out.iter().map(text_of).collect();
    assert_eq!(texts[0], "[Context compacted: 4 messages removed]");
    assert_eq!(&texts[1..], &["m8".to_string(), "m9".to_string()]);
    assert_eq!(dropped, 7);
}

#[test]
fn a_history_within_budget_is_left_at_level_zero() {
    let messages = vec![user("hello"), user("world")];
    let config = ContextConfig::default_config();
    let r = compact_messages_at(messages, &config, 0);
    assert_eq!(r.stats.level, 0);
    assert_eq!(r.messages.len(), 2);
    assert_eq!(r.stats.before_estimated_tokens, r.stats.after_estimated_tokens);
}

#[test]
fn truncating_outputs_is_tried_first() {
    let messages = vec![
        user("go"),
        assistant(vec![call("1")]),
        result("1", &numbered(2_000)),
    ];
    let mut config = ContextConfig::default_config();
    config.max_context_tokens = 4_000 + 2_000;
    let r = compact_messages_at(messages, &config, 0);
    assert_eq!(r.stats.level, 1);
    assert_eq!(r.stats.tool_outputs_truncated, 1);
    assert_eq!(r.messages.len(), 3);
    assert!(r.stats.after_estimated_tokens <= 2_000);
    assert_eq!(r.stats.before_tool_details[0].tool_name, "bash");
}

#[test]
fn an_orphaned_result_is_dropped_after_compaction() {
    let messages = vec![user("go"), result("x", "orphan")];
    assert_eq!(sanitize_tool_pairs(messages.clone()).len(), 1);
    let r = compact_messages_at(messages, &ContextConfig::default_config(), 0);
    assert_eq!(r.messages.len(), 1);
}

#[test]
fn limits_are_checked_turns_first_then_tokens_then_time() {
    let limits = ExecutionLimits::default();
    assert_eq!(limits.max_turns, 50);
    let mut t = ExecutionTracker {
        limits,
        turns: 0,
        tokens_used: 0,
        started_at: std::time::Instant::now(),
    };
    assert_eq!(t.check_limits_after(1_000_000_000), None);
    t.record_turn(999_999);
    assert_eq!(t.turns, 1);
    assert_eq!(t.check_limits_after(1_000_000_000), None);
    t.record_turn(1);
    assert_eq!(
        t.check_limits_after(1_000_000_000),
        Some("Max tokens reached (1000000/1000000)".to_string())
    );
    t.turns = 50;
    assert_eq!(
        t.check_limits_after(1_000_000_000),
        Some("Max turns reached (50/50)".to_string())
    );
}

#[test]
fn the_time_limit_reports_whole_seconds() {
    let t = ExecutionTracker {
        limits: ExecutionLimits {
            max_turns: 10,
            max_total_tokens: 10,
            max_duration_ns: 2_000_000_000,
        },
        turns: 0,
        tokens_used: 0,
        started_at: std::time::Instant::now(),
    };
    assert_eq!(t.check_limits_after(1_999_999_999), None);
    assert_eq!(
        t.check_limits_after(2_500_000_000),
        Some("Max duration reached (2s/2s)".to_string())
    );
    assert_eq!(
        t.check_limits_after(2_500_000_100),
        Some("Max duration reached (3s/2s)".to_string())
    );
    assert_eq!(
        t.check_limits_after(3_600_000_000),
        Some("Max duration reached (4s/2s)".to_string())
    );
    assert_eq!(t.check_limits(), None);
}
