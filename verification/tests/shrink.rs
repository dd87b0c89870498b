use bendengine::compaction::policy::{tool_policy, ToolPolicy};
use bendengine::compaction::passes::shrink::outline::{index_lookup, try_outline};
use bendengine::compaction::passes::shrink::strategy::{
    build_tool_call_index, classify_tool_result, classify_user_action, has_image_block, ToolDecisionInput,
    ToolShrinkDecision, UserAction,
};
use bendengine::compaction::passes::shrink::truncate::{head_tail_content, truncate_content, truncate_text_head_tail};
use bendengine::types::{AgentMessage, Content, ImageSource, Message, StopReason, Usage};

fn calls(list: &[(&str, &str)]) -> AgentMessage {
    AgentMessage::Llm(Message::Assistant {
        content: list
            .iter()
            .map(|(id, args)| Content::ToolCall {
                id: (*id).into(),
                name: "Read".into(),
                arguments: (*args).into(),
            })
            .collect(),
        stop_reason: StopReason::ToolUse,
        model: "m".into(),
        provider: "p".into(),
        usage: Usage {
            input: 0,
            output: 0,
            cache_read: 0,
            cache_write: 0,
        },
        timestamp: 0,
        error_message: None,
        response_id: None,
    })
}

fn text(t: &str) -> Content {
    Content::Text { text: t.into() }
}

fn texts(content: &[Content]) -> Vec<String> {
    content
        .iter()
        .map(|c| match c {
            Content::Text { text } => text.clone(),
            _ => "<other>".to_string(),
        })
        .collect()
}

fn listing() -> String {
    let mut lines = vec![
        "1|use std::fmt;".to_string(),
        "2|".to_string(),
        "3|pub struct Point {".to_string(),
        "4|    x: i32,".to_string(),
        "5|}".to_string(),
        "6|".to_string(),
        "7|impl Point {".to_string(),
        "8|    pub fn new() -> Self {".to_string(),
        "9|        Point { x: 0 }".to_string(),
        "10|    }".to_string(),
        "11|}".to_string(),
    ];
    for i in 12..=22 {
        lines.push(format!("{i}|// note"));
    }
    lines.join("\n")
}

#[test]
fn head_and_tail_lines_are_kept_around_a_note() {
    let t = (1..=10).map(|i| i.to_string()).collect::<Vec<_>>().join("\n");
    assert_eq!(
        truncate_text_head_tail(&t, 5),
        "1\n2\n3\n\n\n[... 5 lines truncated ...]\n\n9\n10"
    );
    assert_eq!(truncate_text_head_tail(&t, 10), t);
    assert_eq!(truncate_text_head_tail("abc", 0), "\n\n[... 1 lines truncated ...]\n\n");
}

#[test]
fn a_long_single_block_is_cut_by_characters() {
    let t = "x".repeat(300);
    assert_eq!(
        truncate_text_head_tail(&t, 2),
        format!("{}\n\n[... 60 chars truncated ...]\n\n{}", "x".repeat(144), "x".repeat(96))
    );
    assert_eq!(truncate_text_head_tail(&"y".repeat(240), 2), "y".repeat(240));
}

#[test]
fn only_text_blocks_are_cut() {
    let t = (1..=10).map(|i| i.to_string()).collect::<Vec<_>>().join("\n");
    let image = Content::Image {
        source: ImageSource::Path { path: "/a.png".into() },
    };
    let out = head_tail_content(&[text(&t), image], 5);
    assert_eq!(
        texts(&out),
        vec!["1\n2\n3\n\n\n[... 5 lines truncated ...]\n\n9\n10".to_string(), "<other>".to_string()]
    );
}

#[test]
fn code_listings_are_replaced_by_their_outline() {
    let ms = vec![calls(&[("c1", "{\"path\":\"src/lib.rs\"}"), ("c2", "{\"path\":\"notes.txt\"}")])];
    let index = build_tool_call_index(&ms);
    assert_eq!(index_lookup(&index, "c1"), Some("{\"path\":\"src/lib.rs\"}".to_string()));
    assert_eq!(index_lookup(&index, "c9"), None);
    let content = vec![text(&listing())];
    let outline = try_outline(&content, "Read", "c1", &index).expect("outline");
    assert_eq!(
        texts(&outline),
        vec!["[Structural outline of src/lib.rs]\npub struct Point {\nimpl Point {\npub fn new() -> Self {".to_string()]
    );
    assert!(try_outline(&content, "Read", "c2", &index).is_none());
    assert!(try_outline(&content, "Read", "c9", &index).is_none());
    let short = vec![text("pub fn a() {}")];
    assert!(try_outline(&short, "Read", "c1", &index).is_none());

    let cut = truncate_content(&content, "Read", "c1", &index, 50, true);
    assert_eq!(texts(&cut), texts(&outline));
    let kept = truncate_content(&content, "Read", "c1", &index, 50, false);
    assert_eq!(texts(&kept), vec![listing()]);
}

fn input(tokens: usize, is_recent: bool, running: usize, policy: &ToolPolicy) -> ToolDecisionInput<'_> {
    ToolDecisionInput {
        tokens,
        is_recent,
        running_tokens: running,
        budget: 10_000,
        oversize_token_threshold: 6_000,
        policy,
    }
}

#[test]
fn tool_results_are_classified_by_size_age_and_budget() {
    let bash = tool_policy("Bash", 50);
    let read = tool_policy("Read", 50);
    assert_eq!(classify_tool_result(input(6_000, true, 0, &bash)), ToolShrinkDecision::OversizeCap);
    assert_eq!(classify_tool_result(input(5_000, true, 20_000, &bash)), ToolShrinkDecision::Keep);
    assert_eq!(classify_tool_result(input(5_000, false, 20_000, &bash)), ToolShrinkDecision::AgeClear);
    assert_eq!(classify_tool_result(input(5_000, false, 20_000, &read)), ToolShrinkDecision::NormalTrunc);
    assert_eq!(classify_tool_result(input(3_000, false, 20_000, &bash)), ToolShrinkDecision::NormalTrunc);
    assert_eq!(classify_tool_result(input(5_000, false, 9_000, &bash)), ToolShrinkDecision::Keep);
}

#[test]
fn user_messages_lose_images_first() {
    let image = Content::Image {
        source: ImageSource::Path { path: "/a.png".into() },
    };
    let with_image = vec![text("look"), image];
    let long = vec![text(&"z".repeat(4_000))];
    assert!(has_image_block(&with_image));
    assert!(!has_image_block(&long));
    assert!(matches!(
        classify_user_action(true, true, 0, 0, true, &with_image, 100),
        UserAction::StripImages
    ));
    assert!(matches!(
        classify_user_action(true, false, 0, 0, false, &long, 100),
        UserAction::Keep
    ));
    assert!(matches!(
        classify_user_action(false, false, 0, 0, false, &long, 100),
        UserAction::TruncateOversized
    ));
    assert!(matches!(
        classify_user_action(false, false, 0, 0, false, &long, 1_000),
        UserAction::Keep
    ));
}
