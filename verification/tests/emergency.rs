use bendengine::compaction::emergency::{summarize, SummarizerInput};
use bendengine::compaction::file_ops::FileOps;

#[test]
fn the_emergency_summary_lists_its_sections_in_order() {
    let input = SummarizerInput {
        evicted_count: 3,
        completed_requests: vec!["fix bug".into()],
        file_ops: FileOps {
            read: vec!["b.rs".into(), "a.rs".into()],
            written: vec![],
            edited: vec!["a.rs".into()],
        },
        env_discoveries: vec!["rust 1.80".into()],
        turn_prefix: Some(String::new()),
        last_conclusion: Some("done".into()),
    };
    assert_eq!(
        summarize(&input).summary,
        "[Context compacted: 3 messages removed]\n\n\
Completed requests (do not revisit):\n- fix bug\n\n\
Files modified:\n- a.rs\nFiles read:\n- b.rs\n\n\
Environment:\n- rust 1.80\n\n\
Last assistant conclusion:\ndone"
    );
}

#[test]
fn an_empty_input_gives_only_the_count() {
    let input = SummarizerInput {
        evicted_count: 0,
        completed_requests: vec![],
        file_ops: FileOps::new(),
        env_discoveries: vec![],
        turn_prefix: Some("ran tests".into()),
        last_conclusion: None,
    };
    assert_eq!(
        summarize(&input).summary,
        "[Context compacted: 0 messages removed]\n\nCurrent turn context (prefix removed):\nran tests"
    );
}
