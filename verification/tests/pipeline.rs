use bendengine::compaction::config::CompactionConfig;
use bendengine::compaction::pipeline::run_at;
use bendengine::compaction::types::collect_tool_details;
use bendengine::types::{AgentMessage, Content, Message, Retention, StopReason, Usage};

fn user(text: &str) -> AgentMessage {
    AgentMessage::Llm(Message::User {
        content: vec![Content::Text { text: text.into() }],
        timestamp: 0,
    })
}

fn assistant_call(id: &str) -> AgentMessage {
    AgentMessage::Llm(Message::Assistant {
        content: vec![Content::ToolCall {
            id: id.into(),
            name: "bash".into(),
            arguments: "{}".into(),
        }],
        stop_reason: StopReason::ToolUse,
        model: "m".into(),
        provider: "p".into(),
        usage: Usage {
            input: 0,
            output: 0,
            cache_read: 0,
            cache_write: 0,
        },
        timestamp: 0,
        error_message: None,
        response_id: None,
    })
}

fn result(id: &str, name: &str, text: &str) -> AgentMessage {
    AgentMessage::Llm(Message::ToolResult {
        tool_call_id: id.into(),
        tool_name: name.into(),
        content: vec![Content::Text { text: text.into() }],
        is_error: false,
        timestamp: 0,
        retention: Retention::Normal,
    })
}

#[test]
fn a_small_history_passes_through_unchanged() {
    let config = CompactionConfig::default_config();
    let ms = vec![user("hi"), assistant_call("c1"), result("c1", "bash", "ok")];
    let r = run_at(ms, &config, 1_000, 7);
    assert_eq!(r.messages.len(), 3);
    assert_eq!(r.stats.level, 0);
    assert_eq!(r.stats.before_message_count, 3);
    assert_eq!(r.stats.after_message_count, 3);
    assert_eq!(r.stats.before_estimated_tokens, 1_000);
    assert_eq!(r.stats.after_estimated_tokens, 1_000);
    assert!(r.stats.actions.is_empty());
}

#[test]
fn orphaned_results_are_removed_after_the_passes() {
    let config = CompactionConfig::default_config();
    // "hi" costs 5 tokens; the orphaned result costs 10.
    let ms = vec![user("hi"), result("x", "bash", "ok")];
    let r = run_at(ms, &config, 0, 7);
    assert_eq!(r.messages.len(), 1);
    assert_eq!(r.stats.before_message_count, 2);
    assert_eq!(r.stats.after_message_count, 1);
    assert_eq!(r.stats.before_estimated_tokens, 15);
    assert_eq!(r.stats.after_estimated_tokens, 5);
}

#[test]
fn tool_details_are_listed_largest_first() {
    let ms = vec![
        result("a", "bash", "abcd"),
        result("b", "read", &"x".repeat(400)),
        result("c", "bash", "abcd"),
    ];
    let d = collect_tool_details(&ms);
    let got: Vec<(String, usize)> = d.into_iter().map(|t| (t.tool_name, t.tokens)).collect();
    assert_eq!(
        got,
        vec![("read".to_string(), 100), ("bash".to_string(), 1), ("bash".to_string(), 1)]
    );
}
