use bendengine::compaction::config::CompactionConfig;
use bendengine::compaction::passes::evict::bounds::{eviction_bounds, protected_prefix_end, token_eviction_bounds};
use bendengine::compaction::passes::evict::units::{
    message_drop_cost, safe_message_units, safe_message_windows, span_score,
};
use bendengine::compaction::passes::evict::Span;
use bendengine::types::{AgentMessage, Content, ExtensionMessage, Message, Retention, StopReason, Usage};

fn user(text: &str) -> AgentMessage {
    AgentMessage::Llm(Message::User {
        content: vec![Content::Text { text: text.into() }],
        timestamp: 0,
    })
}

fn assistant(content: Vec<Content>) -> AgentMessage {
    AgentMessage::Llm(Message::Assistant {
        content,
        stop_reason: StopReason::Stop,
        model: "m".into(),
        provider: "p".into(),
        usage: Usage {
            input: 0,
            output: 0,
            cache_read: 0,
            cache_write: 0,
        },
        timestamp: 0,
        error_message: None,
        response_id: None,
    })
}

fn said(text: &str) -> AgentMessage {
    assistant(vec![Content::Text { text: text.into() }])
}

fn calls(ids: &[&str]) -> AgentMessage {
    assistant(
        ids.iter()
            .map(|id| Content::ToolCall {
                id: (*id).into(),
                name: "bash".into(),
                arguments: "{}".into(),
            })
            .collect(),
    )
}

fn result(id: &str) -> AgentMessage {
    AgentMessage::Llm(Message::ToolResult {
        tool_call_id: id.into(),
        tool_name: "bash".into(),
        content: vec![Content::Text { text: "ok".into() }],
        is_error: false,
        timestamp: 0,
        retention: Retention::Normal,
    })
}

fn history() -> Vec<AgentMessage> {
    vec![
        user("a"),
        said("b"),
        user("c"),
        calls(&["c1", "c2"]),
        result("c1"),
        result("c2"),
        said("d"),
        user("e"),
        said("f"),
    ]
}

fn span(start: usize, end: usize) -> Span {
    Span { start, end }
}

fn config(keep_first: usize, keep_recent: usize) -> CompactionConfig {
    let mut c = CompactionConfig::default_config();
    c.keep_first = keep_first;
    c.keep_recent = keep_recent;
    c
}

#[test]
fn the_protected_prefix_takes_the_answer_to_its_last_message() {
    let ms = history();
    assert_eq!(protected_prefix_end(&ms, 0), 0);
    assert_eq!(protected_prefix_end(&ms, 1), 2);
    assert_eq!(protected_prefix_end(&ms, 3), 3);
    assert_eq!(protected_prefix_end(&ms, 4), 5);
    assert_eq!(protected_prefix_end(&ms, 20), 9);
}

#[test]
fn token_bounds_reach_at_least_the_last_message() {
    let ms = history();
    assert_eq!(token_eviction_bounds(&ms, &config(1, 3)), Some(span(2, 8)));
    assert_eq!(token_eviction_bounds(&ms, &config(9, 3)), None);
}

#[test]
fn count_bounds_stop_before_the_turn_of_the_recent_floor() {
    let ms = history();
    assert_eq!(eviction_bounds(&ms, &config(1, 3)), None);
    assert_eq!(eviction_bounds(&ms, &config(1, 2)), Some(span(2, 7)));
    assert_eq!(eviction_bounds(&ms, &config(1, 0)), Some(span(2, 9)));
}

#[test]
fn units_keep_calls_with_their_results() {
    let ms = history();
    assert_eq!(
        safe_message_units(&ms, span(2, 9)),
        vec![span(2, 3), span(3, 6), span(6, 7), span(7, 9)]
    );
    // A result cut off from its call is a unit of its own.
    assert_eq!(safe_message_units(&ms, span(4, 6)), vec![span(4, 5), span(5, 6)]);
    assert!(safe_message_units(&ms, span(5, 5)).is_empty());
}

#[test]
fn windows_are_runs_of_whole_units_long_enough() {
    let ms = history();
    assert_eq!(
        safe_message_windows(&ms, span(2, 9), 4),
        vec![span(2, 6), span(2, 7), span(2, 9), span(3, 7), span(3, 9)]
    );
    assert!(safe_message_windows(&ms, span(2, 9), 8).is_empty());
}

#[test]
fn dropping_a_user_message_costs_the_most() {
    let ms = history();
    assert_eq!(message_drop_cost(&ms[0]), 1_000);
    assert_eq!(message_drop_cost(&ms[1]), 10);
    assert_eq!(message_drop_cost(&ms[3]), 0);
    assert_eq!(message_drop_cost(&ms[4]), 0);
    let ext = AgentMessage::Extension(ExtensionMessage {
        kind: "ui".into(),
        data: "{}".into(),
    });
    assert_eq!(message_drop_cost(&ext), 10);
    assert_eq!(span_score(&ms, span(3, 7)), 10);
    assert_eq!(span_score(&ms, span(2, 6)), 1_000);
    assert_eq!(span_score(&ms, span(0, 0)), 0);
}
