use bendengine::compaction::config::CompactionConfig;
use bendengine::compaction::metadata::{extract_text, to_metadata};
use bendengine::compaction::pass::{Pass, PassContext};
use bendengine::compaction::passes::microcompact::Microcompact;
use bendengine::compaction::pressure::Pressure;
use bendengine::compaction::types::CompactionMethod;
use bendengine::types::{AgentMessage, Content, ImageSource, Message, Retention, StopReason, Usage};

fn user(text: &str) -> AgentMessage {
    AgentMessage::Llm(Message::User {
        content: vec![Content::Text { text: text.into() }],
        timestamp: 0,
    })
}

fn assistant(content: Vec<Content>) -> AgentMessage {
    AgentMessage::Llm(Message::Assistant {
        content,
        stop_reason: StopReason::ToolUse,
        model: "m".into(),
        provider: "p".into(),
        usage: Usage {
            input: 0,
            output: 0,
            cache_read: 0,
            cache_write: 0,
        },
        timestamp: 0,
        error_message: None,
        response_id: None,
    })
}

fn call(id: &str, name: &str, args: &str) -> AgentMessage {
    assistant(vec![Content::ToolCall {
        id: id.into(),
        name: name.into(),
        arguments: args.into(),
    }])
}

fn said(t: &str) -> AgentMessage {
    assistant(vec![Content::Text { text: t.into() }])
}

fn result(id: &str, name: &str, t: &str) -> AgentMessage {
    AgentMessage::Llm(Message::ToolResult {
        tool_call_id: id.into(),
        tool_name: name.into(),
        content: vec![Content::Text { text: t.into() }],
        is_error: false,
        timestamp: 0,
        retention: Retention::Normal,
    })
}

fn only_text(m: &AgentMessage) -> String {
    match m {
        AgentMessage::Llm(Message::ToolResult { content, .. })
        | AgentMessage::Llm(Message::User { content, .. }) => extract_text(content),
        _ => panic!("a result or user message expected"),
    }
}

fn metadata(name: &str, args: &str, body: &str) -> String {
    let ms = vec![call("c1", name, args), result("c1", name, body)];
    let content = vec![Content::Text { text: body.into() }];
    match &to_metadata(name, &content, &ms, 1)[..] {
        [Content::Text { text }] => text.clone(),
        _ => panic!("one text block expected"),
    }
}

#[test]
fn metadata_keeps_what_is_needed_to_read_again() {
    assert_eq!(metadata("Read", "{\"path\":\"a.rs\"}", "l1\nl2\nl3"), "[cleared — a.rs, 3 lines]");
    assert_eq!(
        metadata("Bash", "{\"command\":\"cargo test\"}", "running\nExit code: 101\n"),
        "[cleared — `cargo test`, exit 101, 2 lines]"
    );
    assert_eq!(metadata("Bash", "{\"command\":\"ls\"}", "a\nb"), "[cleared — `ls`, 2 lines]");
    assert_eq!(metadata("Edit", "{\"path\":\"b.rs\"}", "ok"), "[cleared — b.rs]");
    assert_eq!(
        metadata("WebFetch", "{\"url\":\"https://x.y\"}", "hello"),
        "[cleared — https://x.y, 5 chars]"
    );
    assert_eq!(metadata("Read", "{}", "x"), "[cleared — unknown, 1 lines]");
    assert_eq!(metadata("Grep", "{}", "x"), "[cleared — Grep]");
    let long = "y".repeat(90);
    assert_eq!(
        metadata("Bash", &format!("{{\"command\":\"{long}\"}}"), ""),
        format!("[cleared — `{}...`, 0 lines]", "y".repeat(77))
    );
}

fn reading_session() -> Vec<AgentMessage> {
    let body = "line\n".repeat(100);
    let mut ms = vec![user("read everything")];
    for i in 0..12 {
        let id = format!("c{i}");
        ms.push(call(&id, "Read", &format!("{{\"path\":\"f{i}.rs\"}}")));
        ms.push(result(&id, "Read", &body));
    }
    ms.push(said("done reading"));
    ms.push(user("next"));
    ms.push(said("ok"));
    ms
}

#[test]
fn old_results_are_cleared_in_three_tiers() {
    let config = CompactionConfig::default_config();
    let ms = reading_session();
    let pressure = Pressure::from_messages(&ms, &config, 0);
    assert_eq!(pressure.compactable_tool_result_count, 12);
    let ctx = PassContext { config: &config, pressure };
    assert!(Microcompact.should_run(&ctx));
    let r = Microcompact.run(ms, &ctx);
    assert_eq!(r.messages.len(), 28);
    // The three newest stay in full.
    assert_eq!(only_text(&r.messages[24]), "line\n".repeat(100));
    assert_eq!(only_text(&r.messages[20]), "line\n".repeat(100));
    // The next five keep their metadata.
    assert_eq!(only_text(&r.messages[18]), "[cleared — f8.rs, 100 lines]");
    assert_eq!(only_text(&r.messages[10]), "[cleared — f4.rs, 100 lines]");
    // The rest are cleared.
    assert_eq!(only_text(&r.messages[8]), "[cleared]");
    assert_eq!(only_text(&r.messages[2]), "[cleared]");
    assert_eq!(r.actions.len(), 9);
    assert!(r.actions.iter().all(|a| a.method == CompactionMethod::AgeCleared));
    assert_eq!(r.actions[0].index, 18);
    assert_eq!(r.actions[0].before_tokens, 125);
}

#[test]
fn too_few_results_leave_the_history_alone() {
    let config = CompactionConfig::default_config();
    let ms: Vec<AgentMessage> = reading_session().into_iter().skip(8).collect();
    let pressure = Pressure::from_messages(&ms, &config, 0);
    let ctx = PassContext { config: &config, pressure };
    assert!(!Microcompact.should_run(&ctx));
    let r = Microcompact.run(ms, &ctx);
    assert_eq!(r.messages.len(), 20);
    assert!(r.actions.is_empty());
}

#[test]
fn old_images_become_path_notes() {
    let mut config = CompactionConfig::default_config();
    config.microcompact_trigger = 0;
    let image = |path: Option<&str>| AgentMessage::Llm(Message::User {
        content: vec![
            Content::Text { text: "look".into() },
            Content::Image {
                source: ImageSource::Base64 {
                    data: "A".repeat(400_000),
                    media_type: "image/png".into(),
                    path: path.map(|p| p.to_string()),
                },
            },
        ],
        timestamp: 3,
    });
    let ms = vec![
        image(Some("/tmp/a.png")),
        image(None),
        image(None),
        image(None),
        said("seen"),
        user("more"),
        said("ok"),
    ];
    let pressure = Pressure::from_messages(&ms, &config, 0);
    let ctx = PassContext { config: &config, pressure };
    let r = Microcompact.run(ms, &ctx);
    assert_eq!(only_text(&r.messages[0]), "look\n[image: /tmp/a.png]");
    assert_eq!(only_text(&r.messages[1]), "look\n[image]");
    assert!(matches!(
        &r.messages[2],
        AgentMessage::Llm(Message::User { content, .. }) if content.len() == 2
    ));
    assert_eq!(r.actions.len(), 2);
    assert!(r.actions.iter().all(|a| a.method == CompactionMethod::ImageStripped && a.tool_name == "user"));
}

fn call_args(m: &AgentMessage) -> String {
    match m {
        AgentMessage::Llm(Message::Assistant { content, .. }) => match &content[..] {
            [Content::ToolCall { arguments, .. }] => arguments.clone(),
            _ => panic!("one call expected"),
        },
        _ => panic!("an assistant message expected"),
    }
}

#[test]
fn cleared_calls_keep_a_cut_of_their_input_as_json() {
    let config = CompactionConfig::default_config();
    let body = "line\n".repeat(100);
    let pad = format!("q\"b\\s\nt\tc\u{1}é{}", "x".repeat(300));
    let mut ms = vec![user("write everything")];
    for i in 0..12 {
        let id = format!("c{i}");
        let args = format!("{{\"path\":\"f{i}.rs\",\"pad\":{}}}", serde_json::Value::String(pad.clone()));
        ms.push(call(&id, "Write", &args));
        ms.push(result(&id, "Write", &body));
    }
    ms.push(said("done"));
    ms.push(user("next"));
    ms.push(said("ok"));
    let first_args = call_args(&ms[1]);
    let newest_args = call_args(&ms[23]);
    let pressure = Pressure::from_messages(&ms, &config, 0);
    let ctx = PassContext { config: &config, pressure };
    let r = Microcompact.run(ms, &ctx);
    let cut: String = first_args.chars().take(200).collect();
    let expected = format!(
        "{{\"_truncated\":{}}}",
        serde_json::Value::String(format!("{cut}...[truncated]"))
    );
    assert_eq!(call_args(&r.messages[1]), expected);
    assert_eq!(call_args(&r.messages[23]), newest_args);
}
