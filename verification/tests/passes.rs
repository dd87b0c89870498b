use bendengine::compaction::passes::clear_expired::ClearExpiredToolResults;
use bendengine::compaction::passes::microcompact::truncate_tool_use_input;
use bendengine::compaction::passes::reclaim::clear_current_run;
use bendengine::compaction::types::CompactionMethod;
use bendengine::types::{AgentMessage, Content, Message, Retention};

fn user(text: &str) -> AgentMessage {
    AgentMessage::Llm(Message::User {
        content: vec![Content::Text { text: text.into() }],
        timestamp: 0,
    })
}

fn run_result(text: &str) -> AgentMessage {
    AgentMessage::Llm(Message::ToolResult {
        tool_call_id: "1".into(),
        tool_name: "Read".into(),
        content: vec![Content::Text { text: text.into() }],
        is_error: false,
        timestamp: 0,
        retention: Retention::CurrentRun,
    })
}

fn content_text(m: &AgentMessage) -> String {
    match m {
        AgentMessage::Llm(Message::ToolResult { content, .. }) => content
            .iter()
            .filter_map(|c| match c {
                Content::Text { text } => Some(text.clone()),
                _ => None,
            })
            .collect(),
        _ => String::new(),
    }
}

#[test]
fn truncate_tool_use_input_is_utf8_safe() {
    let input = "界".repeat(201);
    let truncated = truncate_tool_use_input(input, 200).expect("expected truncation");

    assert_eq!(truncated.chars().take(200).count(), 200);
    assert!(truncated.ends_with("...[truncated]"));
}

#[test]
fn a_short_tool_input_is_not_truncated() {
    assert!(truncate_tool_use_input("abc".into(), 3).is_none());
}

#[test]
fn expired_results_are_cleared_once_the_user_moves_on() {
    let messages = vec![user("go"), run_result("short"), user("next"), run_result("still current")];
    let pass = ClearExpiredToolResults;
    assert_eq!(pass.name(), "ClearExpiredToolResults");
    let r = pass.run(messages);
    assert_eq!(content_text(&r.messages[1]), "[Read result cleared after use]");
    assert_eq!(content_text(&r.messages[3]), "still current");
    assert_eq!(r.actions.len(), 1);
    assert_eq!(r.actions[0].index, 1);
    assert_eq!(r.actions[0].method, CompactionMethod::LifecycleCleared);
}

#[test]
fn reclaiming_never_grows_a_small_result() {
    let messages = vec![user("go"), run_result("ok"), user("next")];
    let (out, actions) = clear_current_run(messages);
    // The note would be larger than "ok": the content is emptied instead.
    assert_eq!(content_text(&out[1]), "");
    assert_eq!(actions[0].method, CompactionMethod::LifecycleReclaimed);
}
