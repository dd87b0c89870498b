use bendengine::compaction::remote::{
    downgrade_replay_messages, is_replacement_message, parse_compaction_sse, replacement_message_at,
    with_previous_local_summary_at, RemoteCompaction, RemoteError,
};
use bendengine::types::{AgentMessage, Content, Message, StopReason, ThinkingMetadata, Usage};

fn assistant(content: Vec<Content>) -> Message {
    Message::Assistant {
        content,
        stop_reason: StopReason::Stop,
        model: "m".into(),
        provider: "p".into(),
        usage: Usage {
            input: 0,
            output: 0,
            cache_read: 0,
            cache_write: 0,
        },
        timestamp: 0,
        error_message: None,
        response_id: None,
    }
}

fn item_block(item: &str, fallback: &str) -> Content {
    Content::Thinking {
        thinking: fallback.into(),
        metadata: Some(ThinkingMetadata::OpenAiResponses { item: item.into() }),
    }
}

#[test]
fn a_completed_stream_with_one_item_yields_it() {
    let text = "event: response.output_item.done\n\
data: {\"type\":\"response.output_item.done\",\"item\":{\"type\":\"compaction\",\"encrypted_content\":\"abcd\"}}\n\
\n\
data: {\"type\":\"response.output_item.done\",\"item\":{\"type\":\"reasoning\"}}\n\
data: not json\n\
data: {\"type\":\"response.completed\"}\n\
data: [DONE]\n";
    match parse_compaction_sse(text) {
        Ok(c) => {
            assert_eq!(c.encrypted_bytes, 4);
            assert!(c.item.contains("\"type\":\"compaction\""), "{}", c.item);
        }
        Err(_) => panic!("expected one item"),
    }
}

#[test]
fn a_failure_event_reports_its_message() {
    let text = "data: {\"type\":\"response.failed\",\"response\":{\"error\":{\"message\":\"quota\"}}}\n\
data: {\"type\":\"response.completed\"}\n";
    match parse_compaction_sse(text) {
        Err(RemoteError::Failed(m)) => assert_eq!(m, "quota"),
        _ => panic!("expected failure"),
    }
    match parse_compaction_sse("data: {\"type\":\"error\"}\n") {
        Err(RemoteError::Failed(m)) => assert_eq!(m, "Responses API error"),
        _ => panic!("expected failure"),
    }
}

#[test]
fn an_unfinished_stream_or_a_wrong_count_fails() {
    match parse_compaction_sse("data: {\"type\":\"response.output_item.done\",\"item\":{\"type\":\"compaction\"}}\n") {
        Err(RemoteError::Failed(m)) => assert_eq!(m, "stream ended before response.completed"),
        _ => panic!("expected failure"),
    }
    match parse_compaction_sse("data: {\"type\":\"response.completed\"}\n") {
        Err(RemoteError::Failed(m)) => assert_eq!(m, "expected exactly one compaction item, got 0"),
        _ => panic!("expected failure"),
    }
}

#[test]
fn a_replacement_message_holds_exactly_one_compaction_item() {
    let m = AgentMessage::Llm(assistant(vec![item_block("{\"type\":\"compaction\"}", "summary")]));
    assert!(is_replacement_message(&m));
    let summary = AgentMessage::Llm(assistant(vec![item_block("{\"type\":\"compaction_summary\"}", "s")]));
    assert!(is_replacement_message(&summary));
    let reasoning = AgentMessage::Llm(assistant(vec![item_block("{\"type\":\"reasoning\"}", "r")]));
    assert!(!is_replacement_message(&reasoning));
    let two = AgentMessage::Llm(assistant(vec![
        item_block("{\"type\":\"compaction\"}", "a"),
        Content::Text { text: "b".into() },
    ]));
    assert!(!is_replacement_message(&two));
}

#[test]
fn downgrading_replaces_only_compaction_items() {
    let messages = vec![
        assistant(vec![
            item_block("{\"type\":\"compaction\"}", "the summary"),
            item_block("{\"type\":\"reasoning\"}", "thought"),
        ]),
        Message::User {
            content: vec![Content::Text { text: "hi".into() }],
            timestamp: 0,
        },
    ];
    let (out, found) = downgrade_replay_messages(&messages);
    assert!(found);
    match &out[0] {
        Message::Assistant { content, .. } => {
            assert!(matches!(&content[0], Content::Text { text } if text == "the summary"));
            assert!(matches!(&content[1], Content::Thinking { .. }));
        }
        _ => panic!("assistant expected"),
    }
    let (_, none) = downgrade_replay_messages(&messages[1..]);
    assert!(!none);
}

#[test]
fn a_previous_summary_is_prefixed_unless_blank() {
    let evicted = vec![AgentMessage::Llm(Message::User {
        content: vec![Content::Text { text: "old".into() }],
        timestamp: 1,
    })];
    let with = with_previous_local_summary_at(&evicted, Some("did things"), 9);
    assert_eq!(with.len(), 2);
    match &with[0] {
        AgentMessage::Llm(Message::User { content, timestamp }) => {
            assert_eq!(*timestamp, 9);
            assert!(matches!(&content[0], Content::Text { text }
                if text == "The conversation history before this point was compacted into the following summary:\n\ndid things"));
        }
        _ => panic!("user note expected"),
    }
    assert_eq!(with_previous_local_summary_at(&evicted, Some("  \n"), 9).len(), 1);
    assert_eq!(with_previous_local_summary_at(&evicted, None, 9).len(), 1);
}

#[test]
fn a_replay_message_carries_the_item_and_its_fallback_text() {
    let item = "{\"type\":\"compaction\",\"encrypted_content\":\"xyz\"}".to_string();
    let m = replacement_message_at(
        "gpt-5".into(),
        "openai".into(),
        RemoteCompaction { item: item.clone(), encrypted_bytes: 3 },
        "summary text".into(),
        42,
    );
    assert!(is_replacement_message(&m));
    match &m {
        bendengine::types::AgentMessage::Llm(bendengine::types::Message::Assistant {
            content, model, provider, timestamp, ..
        }) => {
            assert_eq!((model.as_str(), provider.as_str(), *timestamp), ("gpt-5", "openai", 42));
            match &content[..] {
                [bendengine::types::Content::Thinking { thinking, metadata: Some(bendengine::types::ThinkingMetadata::OpenAiResponses { item: i }) }] => {
                    assert_eq!(thinking, "summary text");
                    assert_eq!(i, &item);
                }
                _ => panic!("one thinking block expected"),
            }
        }
        _ => panic!("an assistant message expected"),
    }
    let other = replacement_message_at(
        "m".into(),
        String::new(),
        RemoteCompaction { item: "{\"type\":\"reasoning\"}".into(), encrypted_bytes: 0 },
        String::new(),
        0,
    );
    assert!(!is_replacement_message(&other));
}

#[test]
fn downgrading_twice_finds_nothing_more() {
    let messages = vec![assistant(vec![
        item_block("{\"type\":\"compaction_summary\"}", "s"),
        item_block("{\"type\":\"reasoning\"}", "t"),
    ])];
    let (once, found) = downgrade_replay_messages(&messages);
    assert!(found);
    let (twice, again) = downgrade_replay_messages(&once);
    assert!(!again);
    assert_eq!(twice.len(), once.len());
    match (&once[0], &twice[0]) {
        (Message::Assistant { content: a, .. }, Message::Assistant { content: b, .. }) => {
            assert_eq!(a.len(), b.len());
            assert!(matches!(&b[0], Content::Text { text } if text == "s"));
            assert!(matches!(&b[1], Content::Thinking { thinking, .. } if thinking == "t"));
        }
        _ => panic!("assistant messages expected"),
    }
}
