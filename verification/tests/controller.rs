use bendengine::compaction::config::CompactionConfig;
use bendengine::compaction::controller::{
    drop_failed_response, is_exact_user_text, overflow_exhausted_response, restore_removed_summary,
    take_summary_message, AfterResponseAction, CompactReason, CompactionController,
};
use bendengine::compaction::memory::CompactionState;
use bendengine::types::{AgentMessage, Content, Message, StopReason, Usage};

fn user(text: &str) -> AgentMessage {
    AgentMessage::Llm(Message::User {
        content: vec![Content::Text { text: text.into() }],
        timestamp: 0,
    })
}

fn assistant(text: &str) -> AgentMessage {
    AgentMessage::Llm(Message::Assistant {
        content: vec![Content::Text { text: text.into() }],
        stop_reason: StopReason::Error,
        model: "m".into(),
        provider: "p".into(),
        usage: Usage {
            input: 0,
            output: 0,
            cache_read: 0,
            cache_write: 0,
        },
        timestamp: 0,
        error_message: None,
        response_id: None,
    })
}

fn text_of(m: &AgentMessage) -> String {
    match m {
        AgentMessage::Llm(Message::User { content, .. })
        | AgentMessage::Llm(Message::Assistant { content, .. }) => match &content[0] {
            Content::Text { text } => text.clone(),
            _ => String::new(),
        },
        _ => String::new(),
    }
}

fn controller() -> CompactionController {
    // Window 128k: the threshold is 111,616 tokens.
    CompactionController::new(CompactionConfig::default_config())
}

#[test]
fn the_estimate_calls_for_compaction_at_the_threshold() {
    let mut c = controller();
    assert!(!c.estimate_calls_for_compaction(111_615, "m"));
    assert!(c.estimate_calls_for_compaction(111_616, "m"));
    let mut off = CompactionController::new(CompactionConfig::from_context_window(0));
    assert!(!off.estimate_calls_for_compaction(usize::MAX, "m"));
}

#[test]
fn a_threshold_compaction_suppresses_the_next_until_usage_recovers() {
    let mut c = controller();
    let stats = None;
    let r = c.threshold_response("m", stats, 120_000);
    assert_eq!(r.action, AfterResponseAction::Continue);
    assert_eq!(r.reason, Some(CompactReason::Threshold));
    assert!(!c.threshold_suppressed("m"));

    c.arm_threshold_suppression("m");
    assert!(c.threshold_suppressed("m"));
    assert!(!c.threshold_suppressed("other"));

    // Usage of another model, or still above the threshold, changes nothing.
    c.clear_suppression_if_recovered("other", 10, 1_000, "m");
    assert!(c.threshold_suppressed("m"));
    c.clear_suppression_if_recovered("m", 10, 200_000, "m");
    assert!(c.threshold_suppressed("m"));
    // Usage older than the last compaction is ignored.
    let mut state = CompactionState::initial();
    state.timestamp = 50;
    c.record_compaction(state);
    c.clear_suppression_if_recovered("m", 40, 1_000, "m");
    assert!(c.threshold_suppressed("m"));
    c.clear_suppression_if_recovered("m", 60, 1_000, "m");
    assert!(!c.threshold_suppressed("m"));
}

#[test]
fn an_estimate_under_the_threshold_lifts_the_suppression() {
    let mut c = controller();
    c.arm_threshold_suppression("m");
    assert!(!c.estimate_calls_for_compaction(10, "m"));
    assert!(!c.threshold_suppressed("m"));
}

#[test]
fn an_overflow_is_retried_once_per_turn() {
    let mut c = controller();
    let r = c.overflow_response(true, None, false, 130_000);
    assert_eq!(r.action, AfterResponseAction::Continue);
    assert!(r.overflow_recovery_failed);
    assert!(!c.overflow_recovery_attempted);

    let r = c.overflow_response(true, None, true, 130_000);
    assert!(!r.overflow_recovery_failed);

    let r = overflow_exhausted_response(130_000);
    assert!(r.overflow_exhausted);
    assert_eq!(r.context_tokens, Some(130_000));
    assert_eq!(r.reason, Some(CompactReason::Overflow));

    c.overflow_recovery_attempted = true;
    c.on_user_message();
    assert!(!c.overflow_recovery_attempted);
    c.overflow_recovery_attempted = true;
    c.on_non_error_response();
    assert!(!c.overflow_recovery_attempted);
}

#[test]
fn the_failed_response_is_dropped_before_a_retry() {
    let mut ms = vec![user("q"), assistant("error")];
    drop_failed_response(&mut ms, false);
    assert_eq!(ms.len(), 2);
    drop_failed_response(&mut ms, true);
    assert_eq!(ms.len(), 1);
    drop_failed_response(&mut ms, true);
    assert_eq!(ms.len(), 1);
}

#[test]
fn the_summary_message_is_taken_out_and_put_back() {
    let mut ms = vec![user("first"), user("SUMMARY"), assistant("a"), user("SUMMARY")];
    assert!(is_exact_user_text(&ms[1], "SUMMARY"));
    assert!(!is_exact_user_text(&ms[2], "a"));
    let taken = take_summary_message(&mut ms, Some("SUMMARY"));
    assert_eq!(ms.len(), 3);
    let (i, m) = taken.as_ref().map(|(i, m)| (*i, text_of(m))).unwrap();
    assert_eq!((i, m.as_str()), (1, "SUMMARY"));
    restore_removed_summary(&mut ms, taken);
    assert_eq!(ms.len(), 4);
    assert_eq!(text_of(&ms[1]), "SUMMARY");
    assert_eq!(text_of(&ms[2]), "a");

    assert!(take_summary_message(&mut ms, Some("missing")).is_none());
    assert!(take_summary_message(&mut ms, None).is_none());
    assert_eq!(ms.len(), 4);
}
