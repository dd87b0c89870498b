use bendengine::compaction::file_ops::FileOps;
use bendengine::compaction::memory::{
    build_state_at, extract_env_discoveries, extract_file_ops, extract_user_requests, CompactionState,
};
use bendengine::compaction::metadata::find_tool_call_param;
use bendengine::types::{AgentMessage, Content, Message, Retention, StopReason, Usage};

fn user(texts: &[&str]) -> AgentMessage {
    AgentMessage::Llm(Message::User {
        content: texts
            .iter()
            .map(|t| Content::Text {
                text: (*t).to_string(),
            })
            .collect(),
        timestamp: 0,
    })
}

fn calls(list: &[(&str, &str, &str)]) -> AgentMessage {
    AgentMessage::Llm(Message::Assistant {
        content: list
            .iter()
            .map(|(id, name, args)| Content::ToolCall {
                id: (*id).into(),
                name: (*name).into(),
                arguments: (*args).into(),
            })
            .collect(),
        stop_reason: StopReason::ToolUse,
        model: "m".into(),
        provider: "p".into(),
        usage: Usage {
            input: 0,
            output: 0,
            cache_read: 0,
            cache_write: 0,
        },
        timestamp: 0,
        error_message: None,
        response_id: None,
    })
}

fn bash_result(id: &str, text: &str, is_error: bool) -> AgentMessage {
    AgentMessage::Llm(Message::ToolResult {
        tool_call_id: id.into(),
        tool_name: "bash".into(),
        content: vec![Content::Text { text: text.into() }],
        is_error,
        timestamp: 0,
        retention: Retention::Normal,
    })
}

fn sorted(mut v: Vec<String>) -> Vec<String> {
    v.sort();
    v
}

#[test]
fn requests_are_trimmed_and_markers_skipped() {
    let long = "x".repeat(250);
    let ms = vec![
        user(&["  fix the bug  "]),
        calls(&[]),
        user(&["[Context compacted: 3 messages]"]),
        user(&["   "]),
        user(&["first", "second"]),
        user(&[long.as_str()]),
    ];
    let r = extract_user_requests(&ms);
    assert_eq!(r.len(), 3);
    assert_eq!(r[0], "fix the bug");
    assert_eq!(r[1], "first second");
    assert_eq!(r[2], format!("{}…", "x".repeat(200)));
}

#[test]
fn file_operations_come_from_path_arguments() {
    let ms = vec![
        calls(&[
            ("c1", "Read", "{\"path\":\"a.rs\"}"),
            ("c2", "edit", "{\"path\":\"b.rs\"}"),
            ("c3", "Write", "{\"path\":\"c.rs\"}"),
            ("c4", "bash", "{\"path\":\"d.rs\"}"),
            ("c5", "read", "{\"path\":\"a.rs\"}"),
            ("c6", "Read", "{\"file\":\"e.rs\"}"),
        ]),
        user(&["thanks"]),
    ];
    let mut prev = CompactionState::initial();
    prev.file_ops.read.push("z.rs".into());
    let ops = extract_file_ops(&ms, Some(&prev));
    assert_eq!(sorted(ops.read.clone()), vec!["a.rs".to_string(), "z.rs".to_string()]);
    assert_eq!(ops.edited, vec!["b.rs".to_string()]);
    assert_eq!(ops.written, vec!["c.rs".to_string()]);
    assert_eq!(sorted(ops.modified()), vec!["b.rs".to_string(), "c.rs".to_string()]);
    assert_eq!(sorted(ops.read_only()), vec!["a.rs".to_string(), "z.rs".to_string()]);
}

#[test]
fn a_read_file_that_was_also_edited_is_not_read_only() {
    let mut ops = FileOps::new();
    ops.read.push("a.rs".into());
    ops.read.push("b.rs".into());
    ops.edited.push("a.rs".into());
    assert_eq!(ops.read_only(), vec!["b.rs".to_string()]);
    assert_eq!(ops.modified(), vec!["a.rs".to_string()]);
}

#[test]
fn environment_facts_come_from_probe_commands() {
    let ms = vec![
        calls(&[
            ("c1", "bash", "{\"command\":\"which cargo\"}"),
            ("c2", "bash", "{\"command\":\"ls\"}"),
            ("c3", "bash", "{\"command\":\"rustup show\"}"),
        ]),
        bash_result("c1", "/usr/bin/cargo\n/usr/bin/rustc", false),
        bash_result("c2", "/usr/bin/other", false),
        bash_result("c3", "no match here\nstable-x86_64 toolchain", true),
    ];
    let env = extract_env_discoveries(&ms, None);
    assert_eq!(env, vec!["/usr/bin/cargo".to_string()]);
    assert_eq!(
        find_tool_call_param(&ms, 1, "c1", "command"),
        Some("which cargo".to_string())
    );
    assert_eq!(find_tool_call_param(&ms, 1, "c9", "command"), None);
}

#[test]
fn a_new_state_counts_generations_and_keeps_the_last_requests() {
    let ms: Vec<AgentMessage> = (0..25).map(|i| user(&[format!("request {i}").as_str()])).collect();
    let first = build_state_at(&ms, None, None, 42);
    assert_eq!(first.generation, 1);
    assert_eq!(first.timestamp, 42);
    assert_eq!(first.completed_requests.len(), 20);
    assert_eq!(first.completed_requests[0], "request 5");
    assert_eq!(first.completed_requests[19], "request 24");
    assert_eq!(first.last_summary, None);

    let more = vec![user(&["one more"])];
    let second = build_state_at(&more, None, Some(&first), 43);
    assert_eq!(second.generation, 2);
    assert_eq!(second.completed_requests.len(), 20);
    assert_eq!(second.completed_requests[0], "request 6");
    assert_eq!(second.completed_requests[19], "one more");
}

#[test]
fn the_split_prefix_adds_its_file_operations() {
    let evicted = vec![user(&["go"])];
    let prefix = vec![calls(&[("c1", "Write", "{\"path\":\"out.txt\"}")])];
    let s = build_state_at(&evicted, Some(&prefix), None, 0);
    assert_eq!(s.file_ops.written, vec!["out.txt".to_string()]);
    assert!(s.file_ops.read.is_empty());
}
