use bendengine::compaction::marker::{
    build_fallback_marker_at, build_full_marker_at, clip, first_fact_of, is_env_probe,
    latest_assistant_text, latest_user_text,
};
use bendengine::types::{AgentMessage, Content, Message, Retention, StopReason, Usage};

fn user(text: &str) -> AgentMessage {
    AgentMessage::Llm(Message::User {
        content: vec![Content::Text { text: text.into() }],
        timestamp: 0,
    })
}

fn assistant(content: Vec<Content>) -> AgentMessage {
    AgentMessage::Llm(Message::Assistant {
        content,
        stop_reason: StopReason::Stop,
        model: "m".into(),
        provider: "p".into(),
        usage: Usage {
            input: 0,
            output: 0,
            cache_read: 0,
            cache_write: 0,
        },
        timestamp: 0,
        error_message: None,
        response_id: None,
    })
}

fn text(t: &str) -> Content {
    Content::Text { text: t.into() }
}

fn call(id: &str, name: &str, args: &str) -> Content {
    Content::ToolCall {
        id: id.into(),
        name: name.into(),
        arguments: args.into(),
    }
}

fn result(id: &str, name: &str, t: &str) -> AgentMessage {
    AgentMessage::Llm(Message::ToolResult {
        tool_call_id: id.into(),
        tool_name: name.into(),
        content: vec![text(t)],
        is_error: false,
        timestamp: 0,
        retention: Retention::Normal,
    })
}

fn marker_text(m: &AgentMessage) -> (String, u64) {
    match m {
        AgentMessage::Llm(Message::User { content, timestamp }) => match &content[..] {
            [Content::Text { text }] => (text.clone(), *timestamp),
            _ => panic!("one text block expected"),
        },
        _ => panic!("a user message expected"),
    }
}

#[test]
fn the_full_marker_lists_what_the_dropped_history_held() {
    let ms = vec![
        user("fix the parser"),
        assistant(vec![
            call("c1", "edit", "{\"file_path\":\"src/p.rs\"}"),
            call("c2", "bash", "{\"command\":\"which cargo\"}"),
        ]),
        result("c1", "edit", "ok"),
        result("c2", "bash", "/usr/bin/cargo"),
        assistant(vec![text("The parser is fixed.")]),
        assistant(vec![text("done")]),
        user("now add tests"),
    ];
    let (t, ts) = marker_text(&build_full_marker_at(&ms, 7, 42));
    assert_eq!(ts, 42);
    assert_eq!(
        t,
        "[Context compacted: 7 messages removed]\n\n\
         Retained early context contains these COMPLETED tasks (already handled, do not revisit):\n\
         - fix the parser\n\
         \nFiles already modified (do not re-apply these edits):\n\
         - src/p.rs (edited)\n\
         \nEnvironment (discovered earlier):\n\
         - /usr/bin/cargo\n\
         \nLast assistant conclusion:\n\
         The parser is fixed.\n\
         \nMost recent user request (verbatim):\n\
         now add tests"
    );
}

#[test]
fn an_empty_history_gives_only_the_count() {
    let (t, _) = marker_text(&build_full_marker_at(&[], 0, 1));
    assert_eq!(t, "[Context compacted: 0 messages removed]");
    let (f, ts) = marker_text(&build_fallback_marker_at(9));
    assert_eq!(f, "[Context compacted: messages removed]");
    assert_eq!(ts, 9);
}

#[test]
fn the_latest_user_text_skips_markers_and_reminders() {
    let ms = vec![
        user("real request"),
        user("<system-reminder> x"),
        user("[Context compacted: 3 messages removed]"),
        user("   "),
    ];
    assert_eq!(latest_user_text(&ms), Some("real request".to_string()));
    assert_eq!(latest_user_text(&ms[1..]), None);
}

#[test]
fn the_latest_conclusion_skips_fillers_and_summaries() {
    let ms = vec![
        assistant(vec![text("The build passes."), text("OK.")]),
        assistant(vec![text("[Summary] earlier work")]),
    ];
    assert_eq!(latest_assistant_text(&ms), Some("The build passes.".to_string()));
    let long = "y".repeat(301);
    let ms = vec![assistant(vec![text(&long)])];
    assert_eq!(latest_assistant_text(&ms), Some(format!("{}…", "y".repeat(300))));
}

#[test]
fn clipping_counts_characters() {
    assert_eq!(clip("héllo", 2), "hé…");
    assert_eq!(clip("héllo", 5), "héllo");
}

#[test]
fn probes_and_facts_are_recognized() {
    assert!(is_env_probe("which python3"));
    assert!(is_env_probe("find / -name cc"));
    assert!(is_env_probe("export PATH=/opt/bin:$PATH"));
    assert!(!is_env_probe("echo export PATH=x"));
    assert!(!is_env_probe("ls -la"));
    assert_eq!(
        first_fact_of("nothing\n  /usr/local/bin/python3  \n/usr/bin/x"),
        Some("/usr/local/bin/python3".to_string())
    );
    assert_eq!(first_fact_of("a\nb\nc\nd\ne\n/usr/bin/late"), None);
    let long = format!("/usr/{}", "z".repeat(120));
    assert_eq!(first_fact_of(&long), Some(format!("{}...", &long[..97])));
}
