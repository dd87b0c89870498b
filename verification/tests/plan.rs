use bendengine::compaction::plan::{
    file_ops_of, plan_compaction, plan_messages, plan_messages_from_boundary, CompactEntry,
};
use bendengine::types::{AgentMessage, Content, ExtensionMessage, Message, Retention, StopReason, Usage};

// Every message below costs 13 tokens: 36 bytes of text plus 4.
fn user(c: char) -> AgentMessage {
    AgentMessage::Llm(Message::User {
        content: vec![Content::Text {
            text: c.to_string().repeat(36),
        }],
        timestamp: 0,
    })
}

fn assistant_with(content: Vec<Content>) -> AgentMessage {
    AgentMessage::Llm(Message::Assistant {
        content,
        stop_reason: StopReason::Stop,
        model: "m".into(),
        provider: "p".into(),
        usage: Usage {
            input: 0,
            output: 0,
            cache_read: 0,
            cache_write: 0,
        },
        timestamp: 0,
        error_message: None,
        response_id: None,
    })
}

fn assistant(c: char) -> AgentMessage {
    assistant_with(vec![Content::Text {
        text: c.to_string().repeat(36),
    }])
}

fn tool_call(id: &str, name: &str, args: &str) -> Content {
    Content::ToolCall {
        id: id.into(),
        name: name.into(),
        arguments: args.into(),
    }
}

fn result(id: &str) -> AgentMessage {
    AgentMessage::Llm(Message::ToolResult {
        tool_call_id: id.into(),
        tool_name: "read".into(),
        content: vec![Content::Text { text: "ok".into() }],
        is_error: false,
        timestamp: 0,
        retention: Retention::Normal,
    })
}

fn history() -> Vec<AgentMessage> {
    vec![user('a'), assistant('b'), user('c'), assistant('d'), user('e')]
}

#[test]
fn a_cut_at_a_user_message_summarizes_everything_before_it() {
    let p = plan_messages(&history(), 13).expect("plan");
    assert_eq!(p.summarize, 0..4);
    assert_eq!(p.turn_prefix, None);
    assert_eq!(p.first_kept, 4);
    assert_eq!(p.first_kept_seq, 5);
    assert!(p.split_turn.is_none());
    assert_eq!(p.tokens_before, 65);
    assert_eq!(p.messages_before, 5);
}

#[test]
fn a_message_plan_cut_inside_a_turn_summarizes_its_prefix() {
    let p = plan_messages(&history(), 26).expect("plan");
    assert_eq!(p.summarize, 0..2);
    assert_eq!(p.turn_prefix, Some(2..3));
    assert_eq!(p.first_kept, 3);
    assert_eq!(p.first_kept_seq, 4);
    let split = p.split_turn.expect("split");
    assert_eq!((split.turn_start_seq, split.cut_seq), (3, 4));
}

#[test]
fn nothing_is_planned_when_everything_fits() {
    assert!(plan_messages(&history(), 1_000).is_none());
    assert!(plan_messages(&[], 10).is_none());
}

#[test]
fn a_minimum_forces_the_cut_forward() {
    let p = plan_messages_from_boundary(&history(), 1_000, 2).expect("plan");
    assert_eq!(p.summarize, 0..2);
    assert_eq!(p.first_kept, 2);
    // Past the end: everything is evicted.
    let all = plan_messages_from_boundary(&history(), 1_000, 9).expect("plan");
    assert_eq!(all.first_kept, 5);
    assert_eq!(all.first_kept_seq, 6);
}

#[test]
fn the_cut_never_lands_on_a_tool_result() {
    let ms = vec![
        user('a'),
        assistant_with(vec![tool_call("c1", "read", "{\"path\":\"src/a.rs\"}")]),
        result("c1"),
        assistant('d'),
        user('e'),
    ];
    // The budget is crossed at the tool result; the cut snaps to the next
    // assistant message and splits the turn started by the first user.
    let p = plan_messages(&ms, 30).expect("plan");
    assert_eq!(p.first_kept, 3);
    assert_eq!(p.summarize, 0..0);
    assert_eq!(p.turn_prefix, Some(0..3));
    assert_eq!(p.file_ops.read, vec!["src/a.rs".to_string()]);
}

#[test]
fn adjacent_extension_messages_stay_with_the_tail() {
    let ext = AgentMessage::Extension(ExtensionMessage {
        kind: "ui".into(),
        data: "{}".into(),
    });
    let ms = vec![user('a'), assistant('b'), ext, user('c')];
    let p = plan_messages(&ms, 13).expect("plan");
    assert_eq!(p.first_kept, 2);
    // The kept extension is no user message: the turn of the first user is split.
    assert_eq!(p.summarize, 0..0);
    assert_eq!(p.turn_prefix, Some(0..2));
}

#[test]
fn a_transcript_plan_starts_at_the_previous_boundary() {
    let entries: Vec<CompactEntry> = history()
        .into_iter()
        .enumerate()
        .map(|(i, message)| CompactEntry {
            seq: (i as u64 + 1) * 10,
            message,
        })
        .collect();
    let p = plan_compaction(&entries, Some(20), 13).expect("plan");
    assert_eq!(p.summarize, 1..4);
    assert_eq!(p.first_kept_seq, 50);
    // A boundary past every entry is ignored.
    let q = plan_compaction(&entries, Some(60), 13).expect("plan");
    assert_eq!(q.summarize, 0..4);
}

#[test]
fn file_operations_follow_the_tool_names() {
    let ms = vec![assistant_with(vec![
        tool_call("c1", "edit", "{\"file_path\":\"e.rs\"}"),
        tool_call("c2", "write", "{\"filename\":\"w.rs\"}"),
        tool_call("c3", "grep", "{\"path\":\"g.rs\"}"),
        tool_call("c4", "bash", "{\"path\":\"b.rs\"}"),
        tool_call("c5", "Read", "{\"path\":\"r.rs\"}"),
    ])];
    let ops = file_ops_of(&ms, 0, 1);
    assert_eq!(ops.edited, vec!["e.rs".to_string()]);
    assert_eq!(ops.written, vec!["w.rs".to_string()]);
    assert_eq!(ops.read, vec!["g.rs".to_string()]);
    let none = file_ops_of(&ms, 0, 0);
    assert!(none.edited.is_empty());
}
