use bendengine::sanitize::{collect_call_ids, collect_result_ids, contains_string, sanitize_tool_pairs};
use bendengine::types::{AgentMessage, Content, Message, Retention, StopReason, Usage};

fn user(text: &str) -> AgentMessage {
    AgentMessage::Llm(Message::User {
        content: vec![Content::Text { text: text.into() }],
        timestamp: 0,
    })
}

fn assistant(content: Vec<Content>) -> AgentMessage {
    AgentMessage::Llm(Message::Assistant {
        content,
        stop_reason: StopReason::ToolUse,
        model: "m".into(),
        provider: "p".into(),
        usage: Usage {
            input: 0,
            output: 0,
            cache_read: 0,
            cache_write: 0,
        },
        timestamp: 0,
        error_message: None,
        response_id: None,
    })
}

fn call(id: &str) -> Content {
    Content::ToolCall {
        id: id.into(),
        name: "bash".into(),
        arguments: "{}".into(),
    }
}

fn text(t: &str) -> Content {
    Content::Text { text: t.into() }
}

fn result(id: &str) -> AgentMessage {
    AgentMessage::Llm(Message::ToolResult {
        tool_call_id: id.into(),
        tool_name: "bash".into(),
        content: vec![text("ok")],
        is_error: false,
        timestamp: 0,
        retention: Retention::Normal,
    })
}

fn shape(ms: &[AgentMessage]) -> Vec<String> {
    ms.iter()
        .map(|m| match m {
            AgentMessage::Llm(Message::User { .. }) => "user".to_string(),
            AgentMessage::Llm(Message::Assistant { content, .. }) => {
                let parts: Vec<String> = content
                    .iter()
                    .map(|c| match c {
                        Content::ToolCall { id, .. } => format!("call {id}"),
                        _ => "text".to_string(),
                    })
                    .collect();
                format!("assistant [{}]", parts.join(", "))
            }
            AgentMessage::Llm(Message::ToolResult { tool_call_id, .. }) => format!("result {tool_call_id}"),
            AgentMessage::Extension(_) => "extension".to_string(),
        })
        .collect()
}

#[test]
fn paired_histories_are_left_alone() {
    let ms = vec![user("go"), assistant(vec![text("t"), call("a")]), result("a")];
    let r = sanitize_tool_pairs(ms);
    assert_eq!(shape(&r), vec!["user", "assistant [text, call a]", "result a"]);
}

#[test]
fn orphaned_calls_and_results_are_dropped() {
    let ms = vec![
        user("go"),
        assistant(vec![text("t"), call("a"), call("b")]),
        result("a"),
        result("x"),
        assistant(vec![call("c")]),
    ];
    let r = sanitize_tool_pairs(ms);
    assert_eq!(shape(&r), vec!["user", "assistant [text, call a]", "result a"]);
}

#[test]
fn ids_are_collected_in_order() {
    let ms = vec![
        assistant(vec![call("a"), text("t"), call("b")]),
        result("b"),
        result("a"),
    ];
    assert_eq!(collect_call_ids(&ms), vec!["a".to_string(), "b".to_string()]);
    assert_eq!(collect_result_ids(&ms), vec!["b".to_string(), "a".to_string()]);
    let ids = vec!["a".to_string(), "b".to_string()];
    assert!(contains_string(&ids, &"b".to_string()));
    assert!(!contains_string(&ids, &"c".to_string()));
}

#[test]
fn sanitizing_twice_changes_nothing_more() {
    let ms = vec![
        user("go"),
        assistant(vec![text("t"), call("a"), call("b")]),
        result("a"),
        user("again"),
        result("x"),
    ];
    let once = sanitize_tool_pairs(ms);
    let shape_once = shape(&once);
    assert_eq!(shape_once, vec!["user", "assistant [text, call a]", "result a", "user"]);
    let twice = sanitize_tool_pairs(once);
    assert_eq!(shape(&twice), shape_once);
}
