use bendengine::context::{ContextConfig, ContextTracker};
use bendengine::tokens::{block_estimate, content_tokens, estimate_tokens, message_tokens, total_tokens};
use bendengine::types::{
    AgentMessage, Content, ExtensionMessage, ImageSource, Message, Retention, StopReason, Usage,
};

fn user(text: &str) -> AgentMessage {
    AgentMessage::Llm(Message::User {
        content: vec![Content::Text { text: text.into() }],
        timestamp: 0,
    })
}

fn assistant(text: &str) -> AgentMessage {
    AgentMessage::Llm(Message::Assistant {
        content: vec![Content::Text { text: text.into() }],
        stop_reason: StopReason::Stop,
        model: "m".into(),
        provider: "p".into(),
        usage: Usage {
            input: 0,
            output: 0,
            cache_read: 0,
            cache_write: 0,
        },
        timestamp: 0,
        error_message: None,
        response_id: None,
    })
}

fn tool_result(text: &str) -> AgentMessage {
    AgentMessage::Llm(Message::ToolResult {
        tool_call_id: "c1".into(),
        tool_name: "bash".into(),
        content: vec![Content::Text { text: text.into() }],
        is_error: false,
        timestamp: 0,
        retention: Retention::Normal,
    })
}

fn base64_image(len: usize) -> Content {
    Content::Image {
        source: ImageSource::Base64 {
            data: "A".repeat(len),
            media_type: "image/png".into(),
            path: None,
        },
    }
}

#[test]
fn text_costs_a_token_per_four_bytes_rounded_up() {
    assert_eq!(estimate_tokens(""), 0);
    assert_eq!(estimate_tokens("abcd"), 1);
    assert_eq!(estimate_tokens("abcde"), 2);
    // Six UTF-8 bytes.
    assert_eq!(estimate_tokens("你好"), 2);
}

#[test]
fn a_tool_call_costs_its_name_arguments_and_eight() {
    let c = Content::ToolCall {
        id: "c1".into(),
        name: "bash".into(),
        arguments: "{\"command\":\"ls\"}".into(),
    };
    // "bash" = 1, 16 bytes of arguments = 4, plus 8.
    assert_eq!(block_estimate(&c), 13);
}

#[test]
fn images_are_clamped_between_the_minimum_and_the_maximum() {
    assert_eq!(block_estimate(&base64_image(4_000)), 85);
    assert_eq!(block_estimate(&base64_image(1_000_000)), 1_000);
    assert_eq!(block_estimate(&base64_image(30_000_000)), 16_000);
    let path = Content::Image {
        source: ImageSource::Path {
            path: "/tmp/a.png".into(),
        },
    };
    assert_eq!(block_estimate(&path), 85);
}

#[test]
fn content_sums_its_blocks() {
    let content = vec![
        Content::Text {
            text: "abcdefgh".into(),
        },
        Content::Thinking {
            thinking: "abc".into(),
            metadata: None,
        },
    ];
    assert_eq!(content_tokens(&content), 3);
    assert_eq!(content_tokens(&[]), 0);
}

#[test]
fn messages_add_their_envelope() {
    assert_eq!(message_tokens(&user("abcd")), 5);
    assert_eq!(message_tokens(&assistant("abcd")), 5);
    // Content 2, tool name 1, plus 8.
    assert_eq!(message_tokens(&tool_result("abcdefgh")), 11);
    let ext = AgentMessage::Extension(ExtensionMessage {
        kind: "note".into(),
        data: "{}".into(),
    });
    assert_eq!(message_tokens(&ext), 5);
}

#[test]
fn a_history_sums_its_messages() {
    let ms = vec![user("abcd"), tool_result("abcdefgh")];
    assert_eq!(total_tokens(&ms), 16);
    assert_eq!(total_tokens(&[]), 0);
}

#[test]
fn the_tracker_adds_estimates_after_the_last_usage() {
    let mut tracker = ContextTracker::new();
    let ms = vec![user("abcd"), assistant("abcd"), user("abcdefgh"), user("abcd")];
    // No usage yet: a pure estimate.
    assert_eq!(tracker.estimate_context_tokens(&ms), 5 + 5 + 6 + 5);
    tracker.record_usage(
        &Usage {
            input: 1500,
            output: 200,
            cache_read: 0,
            cache_write: 0,
        },
        1,
    );
    assert_eq!(tracker.estimate_context_tokens(&ms), 1700 + 6 + 5);
    // Usage recorded past the end of the history is not used.
    assert_eq!(tracker.estimate_context_tokens(&ms[..1]), 5);
}

#[test]
fn a_response_without_usage_leaves_the_tracker_alone() {
    let mut tracker = ContextTracker::new();
    let ms = vec![user("abcd"), assistant("abcd"), user("abcd")];
    tracker.record_usage(
        &Usage {
            input: 100,
            output: 0,
            cache_read: 20,
            cache_write: 30,
        },
        0,
    );
    tracker.record_usage(
        &Usage {
            input: 0,
            output: 0,
            cache_read: 0,
            cache_write: 0,
        },
        2,
    );
    assert_eq!(tracker.estimate_context_tokens(&ms), 150 + 5 + 5);
    tracker.reset();
    assert_eq!(tracker.estimate_context_tokens(&ms), 15);
}

#[test]
fn a_context_window_reserves_a_fifth_for_output() {
    let c = ContextConfig::from_context_window(200_000);
    assert_eq!(c.max_context_tokens, 160_000);
    assert_eq!(c.system_prompt_tokens, 4_000);
    assert_eq!(c.keep_recent, 10);
    assert_eq!(c.keep_first, 2);
    assert_eq!(c.tool_output_max_lines, 50);
    let d = ContextConfig::default_config();
    assert_eq!(d.max_context_tokens, 100_000);
}
