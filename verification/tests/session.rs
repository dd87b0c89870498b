use bendengine::compaction::session::{plan_session_compaction, CompactEntry};
use bendengine::types::{AgentMessage, Content, Message, Retention, StopReason, Usage};

fn user(text: &str) -> AgentMessage {
    AgentMessage::Llm(Message::User {
        content: vec![Content::Text { text: text.into() }],
        timestamp: 0,
    })
}

fn assistant(content: Vec<Content>) -> AgentMessage {
    AgentMessage::Llm(Message::Assistant {
        content,
        stop_reason: StopReason::Stop,
        model: "m".into(),
        provider: "p".into(),
        usage: Usage {
            input: 0,
            output: 0,
            cache_read: 0,
            cache_write: 0,
        },
        timestamp: 0,
        error_message: None,
        response_id: None,
    })
}

fn entries() -> Vec<CompactEntry> {
    let messages = vec![
        user("first request"),
        assistant(vec![Content::ToolCall {
            id: "1".into(),
            name: "read".into(),
            arguments: "{\"path\":\"a.txt\"}".into(),
        }]),
        AgentMessage::Llm(Message::ToolResult {
            tool_call_id: "1".into(),
            tool_name: "read".into(),
            content: vec![Content::Text { text: "contents".into() }],
            is_error: false,
            timestamp: 0,
            retention: Retention::Normal,
        }),
        user("second request"),
        assistant(vec![Content::Text { text: "done".into() }]),
    ];
    messages
        .into_iter()
        .enumerate()
        .map(|(i, message)| CompactEntry {
            seq: 10 + i as u64,
            message,
        })
        .collect()
}

#[test]
fn a_cut_inside_a_turn_summarizes_its_prefix_separately() {
    let plan = plan_session_compaction(&entries(), None, 1, 1).expect("a plan");
    assert_eq!((plan.summarize.start, plan.summarize.end), (0, 3));
    let prefix = plan.turn_prefix.expect("split turn");
    assert_eq!((prefix.start, prefix.end), (3, 4));
    assert_eq!(plan.first_kept, 4);
    assert_eq!(plan.first_kept_seq, 14);
    let split = plan.split_turn.expect("split turn");
    assert_eq!((split.turn_start_seq, split.cut_seq), (13, 14));
    assert_eq!(plan.messages_before, 5);
    assert_eq!(plan.file_ops.read, vec!["a.txt".to_string()]);
    assert!(plan.file_ops.edited.is_empty());
}

#[test]
fn entries_before_the_previous_boundary_are_not_summarized_again() {
    let plan = plan_session_compaction(&entries(), Some(13), 1, 1).expect("a plan");
    assert_eq!((plan.summarize.start, plan.summarize.end), (3, 3));
    let prefix = plan.turn_prefix.expect("split turn");
    assert_eq!((prefix.start, prefix.end), (3, 4));
    assert!(plan.file_ops.read.is_empty());
}

#[test]
fn nothing_to_plan_for_a_single_entry() {
    let one: Vec<CompactEntry> = entries().into_iter().take(1).collect();
    assert!(plan_session_compaction(&one, None, 1, 1).is_none());
    assert!(plan_session_compaction(&[], None, 1, 1).is_none());
}

#[test]
fn the_last_entry_is_always_kept() {
    // The tail never reaches the token minimum: the cut still keeps the
    // newest entry.
    let plan = plan_session_compaction(&entries(), None, 1_000_000, 1).expect("a plan");
    assert_eq!(plan.first_kept, 4);
}
