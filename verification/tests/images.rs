use bendengine::compaction::phases::image_path_downgrade::run;
use bendengine::compaction::passes::reclaim::downgrade_images;
use bendengine::compaction::types::CompactionMethod;
use bendengine::types::{AgentMessage, Content, ImageSource, Message, StopReason, Usage};

fn image(path: Option<&str>) -> Content {
    Content::Image {
        source: ImageSource::Base64 {
            data: "A".repeat(400_000),
            media_type: "image/png".into(),
            path: path.map(|p| p.to_string()),
        },
    }
}

fn user_with(c: Content) -> AgentMessage {
    AgentMessage::Llm(Message::User { content: vec![c], timestamp: 0 })
}

fn assistant_with(c: Content) -> AgentMessage {
    AgentMessage::Llm(Message::Assistant {
        content: vec![c],
        stop_reason: StopReason::Stop,
        model: "m".into(),
        provider: "p".into(),
        usage: Usage { input: 0, output: 0, cache_read: 0, cache_write: 0 },
        timestamp: 0,
        error_message: None,
        response_id: None,
    })
}

fn is_path(m: &AgentMessage) -> bool {
    let content = match m {
        AgentMessage::Llm(Message::User { content, .. }) | AgentMessage::Llm(Message::Assistant { content, .. }) => content,
        _ => panic!("a user or assistant message expected"),
    };
    matches!(&content[0], Content::Image { source: ImageSource::Path { .. } })
}

fn history() -> Vec<AgentMessage> {
    vec![
        user_with(image(Some("/a.png"))),
        assistant_with(image(Some("/b.png"))),
        user_with(image(None)),
        user_with(image(Some("/c.png"))),
    ]
}

#[test]
fn the_phase_downgrades_old_images_in_every_message_kind() {
    let r = run(history());
    assert!(is_path(&r.messages[0]));
    assert!(is_path(&r.messages[1]));
    assert!(!is_path(&r.messages[2]));
    // The newest image with a file stays inline.
    assert!(!is_path(&r.messages[3]));
    assert_eq!(r.actions.len(), 2);
    assert_eq!(r.actions[1].tool_name, "assistant");
    assert_eq!(r.actions[1].index, 1);
    assert!(r.actions.iter().all(|a| a.method == CompactionMethod::ImageStripped));
    assert_eq!((r.actions[0].before_tokens, r.actions[0].after_tokens), (400, 85));
}

#[test]
fn the_reclaim_pass_leaves_assistant_images_alone() {
    let (ms, actions) = downgrade_images(history());
    assert!(is_path(&ms[0]));
    assert!(!is_path(&ms[1]));
    assert_eq!(actions.len(), 1);
}
