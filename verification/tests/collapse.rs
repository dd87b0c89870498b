use bendengine::compaction::config::CompactionConfig;
use bendengine::compaction::passes::collapse::{collapse_at, is_filler};
use bendengine::compaction::pressure::Pressure;
use bendengine::compaction::types::CompactionMethod;
use bendengine::types::{AgentMessage, Content, Message, Retention, StopReason, Usage};

fn user(text: &str) -> AgentMessage {
    AgentMessage::Llm(Message::User {
        content: vec![Content::Text { text: text.into() }],
        timestamp: 0,
    })
}

fn assistant(content: Vec<Content>) -> AgentMessage {
    AgentMessage::Llm(Message::Assistant {
        content,
        stop_reason: StopReason::ToolUse,
        model: "m".into(),
        provider: "p".into(),
        usage: Usage {
            input: 0,
            output: 0,
            cache_read: 0,
            cache_write: 0,
        },
        timestamp: 0,
        error_message: None,
        response_id: None,
    })
}

fn text(t: &str) -> Content {
    Content::Text { text: t.into() }
}

fn call(id: &str, name: &str) -> Content {
    Content::ToolCall {
        id: id.into(),
        name: name.into(),
        arguments: "{}".into(),
    }
}

fn result(id: &str, name: &str, t: &str) -> AgentMessage {
    AgentMessage::Llm(Message::ToolResult {
        tool_call_id: id.into(),
        tool_name: name.into(),
        content: vec![text(t)],
        is_error: false,
        timestamp: 0,
        retention: Retention::Normal,
    })
}

fn small_config() -> CompactionConfig {
    let mut c = CompactionConfig::default_config();
    // Trigger at 80, target 60.
    c.budget_tokens = 100;
    c.keep_recent = 1;
    c
}

#[test]
fn an_old_turn_becomes_one_summary_line() {
    let config = small_config();
    let big = "x".repeat(400);
    let ms = vec![
        user("go"),
        assistant(vec![text("Reading the file"), call("c1", "read")]),
        result("c1", "read", &big),
        user("thanks"),
    ];
    let pressure = Pressure::from_messages(&ms, &config, 0);
    assert_eq!(pressure.message_tokens, 138);
    let r = collapse_at(ms, &config, &pressure, 77);
    assert_eq!(r.messages.len(), 3);
    match &r.messages[1] {
        AgentMessage::Llm(Message::Assistant {
            content,
            model,
            timestamp,
            ..
        }) => {
            match &content[..] {
                [Content::Text { text }] => assert_eq!(text, "[Summary] read — \"Reading the file\""),
                _ => panic!("one text block expected"),
            }
            assert_eq!(model, "compaction");
            assert_eq!(*timestamp, 77);
        }
        _ => panic!("a summary expected"),
    }
    assert_eq!(r.actions.len(), 1);
    let a = &r.actions[0];
    assert_eq!(a.index, 1);
    assert_eq!(a.tool_name, "assistant");
    assert_eq!(a.method, CompactionMethod::TurnCollapsed);
    assert_eq!((a.before_tokens, a.after_tokens), (127, 14));
    assert_eq!(a.related_count, Some(1));
}

#[test]
fn nothing_collapses_under_the_target() {
    let mut config = small_config();
    config.budget_tokens = 1_000;
    let ms = vec![
        user("go"),
        assistant(vec![text("Reading"), call("c1", "read")]),
        result("c1", "read", "ok"),
        user("thanks"),
    ];
    let pressure = Pressure::from_messages(&ms, &config, 0);
    let r = collapse_at(ms, &config, &pressure, 0);
    assert_eq!(r.messages.len(), 4);
    assert!(r.actions.is_empty());
}

#[test]
fn the_recent_messages_are_never_collapsed() {
    let mut config = small_config();
    config.keep_recent = 10;
    let ms = vec![user("go"), assistant(vec![call("c1", "read")]), result("c1", "read", &"x".repeat(400))];
    let pressure = Pressure::from_messages(&ms, &config, 0);
    let r = collapse_at(ms, &config, &pressure, 0);
    assert_eq!(r.messages.len(), 3);
    assert!(r.actions.is_empty());
}

#[test]
fn acknowledgements_are_fillers() {
    assert!(is_filler("Done."));
    assert!(is_filler("  ok "));
    assert!(is_filler("Let me check"));
    assert!(!is_filler("Done with the parser"));
    assert!(!is_filler(""));
}

#[test]
fn pressure_counts_compactable_results_and_images() {
    let config = small_config();
    let ms = vec![
        user("go"),
        result("c1", "Read", &"x".repeat(400)),
        result("c2", "Read", "short"),
        result("c3", "Grep", &"y".repeat(800)),
    ];
    let p = Pressure::from_messages(&ms, &config, 90);
    assert_eq!(p.compactable_tool_result_tokens, 100);
    assert_eq!(p.compactable_tool_result_count, 1);
    assert_eq!(p.max_tool_result_tokens, 200);
    assert_eq!(p.max_user_tokens, 1);
    assert_eq!(p.message_count, 4);
    assert!(p.estimate_pressure);
    assert!(!p.image_pressure);
}
