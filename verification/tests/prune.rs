use bendengine::compaction::prune::candidates::collect;
use bendengine::compaction::prune::ledger::{plan_batches, renderable, DecideError, PruneLedger};
use bendengine::compaction::prune::options::PruneOptions;
use bendengine::compaction::prune::questions::{AnswerEntry, Question};
use bendengine::compaction::prune::report::{
    ApplyTrigger, BatchReport, DecideReport, Decision, RequestRelevance,
};
use bendengine::compaction::prune::requests::{
    finish_request_round, plan_request_round, task_header, JudgeReply,
};
use bendengine::compaction::prune::state::{estimate_tokens, render, text_of};
use bendengine::tokens::total_tokens;
use bendengine::types::{AgentMessage, Content, Message, Retention, StopReason, Usage};

/// A judge that answers every question, with the probability scripted for
/// its id or 0.9.
struct Scripted(Vec<(&'static str, f64)>);

impl Scripted {
    fn reply(&self, questions: &[Question]) -> JudgeReply {
        JudgeReply::Answers(
            questions
                .iter()
                .map(|q| {
                    let p = self
                        .0
                        .iter()
                        .find(|(id, _)| *id == q.id)
                        .map(|(_, p)| *p)
                        .unwrap_or(0.9);
                    AnswerEntry {
                        id: q.id.clone(),
                        probability: Some((p * 1_000_000.0).round() as u32),
                    }
                })
                .collect(),
        )
    }
}

/// A judge that answers nothing.
struct Silent;

impl Silent {
    fn reply(&self, _questions: &[Question]) -> JudgeReply {
        JudgeReply::Answers(Vec::new())
    }
}

const MAX_QUESTIONS: usize = 64;
const REQUEST_TOKENS: usize = 32_000;

/// One decide round driven synchronously: the judge's replies come from `ask`.
fn decide(
    ledger: &mut PruneLedger,
    messages: &[AgentMessage],
    ask: &dyn Fn(&[Question]) -> JudgeReply,
    options: &PruneOptions,
    max_questions: usize,
) -> Result<DecideReport, DecideError> {
    let start = ledger.begin_decide(messages, options, max_questions);
    if start.candidates.is_empty() {
        return ledger.finish_decide(
            &start.candidates,
            Vec::new(),
            options,
            start.context_tokens,
            0,
            Vec::new(),
            0,
        );
    }
    let round = plan_request_round(messages);
    let reply = if round.ask {
        ask(&round.questions)
    } else {
        JudgeReply::Answers(Vec::new())
    };
    let (user_requests, task_requests) =
        finish_request_round(round, reply, options).expect("not cancelled");
    let task = task_header(&user_requests);
    let batches = plan_batches(
        messages,
        &start.candidates,
        &task,
        start.calls_per_request,
        REQUEST_TOKENS,
    );
    let outcomes: Vec<(BatchReport, JudgeReply)> = batches
        .into_iter()
        .map(|b| {
            let report = BatchReport {
                from: b.from,
                to: b.to,
                state_tokens: estimate_tokens(&b.state),
                call_ids: b.call_ids.clone(),
                failed: None,
            };
            (report, ask(&b.questions))
        })
        .collect();
    ledger.finish_decide(
        &start.candidates,
        outcomes,
        options,
        start.context_tokens,
        task_requests,
        user_requests,
        0,
    )
}

fn user(text: &str) -> AgentMessage {
    AgentMessage::Llm(Message::User {
        content: vec![Content::Text { text: text.into() }],
        timestamp: 0,
    })
}

fn call(id: &str, name: &str) -> AgentMessage {
    AgentMessage::Llm(Message::Assistant {
        content: vec![Content::ToolCall {
            id: id.into(),
            name: name.into(),
            arguments: format!("{{\"path\":\"{id}.txt\"}}"),
        }],
        stop_reason: StopReason::ToolUse,
        model: "m".into(),
        provider: "p".into(),
        usage: Usage {
            input: 0,
            output: 0,
            cache_read: 0,
            cache_write: 0,
        },
        timestamp: 0,
        error_message: None,
        response_id: None,
    })
}

fn result(id: &str, text: &str) -> AgentMessage {
    AgentMessage::Llm(Message::ToolResult {
        tool_call_id: id.into(),
        tool_name: "Read".into(),
        content: vec![Content::Text { text: text.into() }],
        is_error: false,
        timestamp: 0,
        retention: Retention::Normal,
    })
}

fn transcript() -> Vec<AgentMessage> {
    vec![
        user("Fix the failing test."),
        call("a", "Read"),
        result("a", &"old file contents ".repeat(50)),
        call("b", "Read"),
        result("b", &"still relevant ".repeat(50)),
        call("c", "Bash"),
        result("c", &"stale output ".repeat(50)),
        user("continue"),
        call("d", "Read"),
        result("d", "recent"),
    ]
}

fn options() -> PruneOptions {
    PruneOptions {
        preserve_recent: 3,
        decide_min_candidates: 1,
        ..PruneOptions::default()
    }
}

fn task() -> String {
    task_header(&[RequestRelevance {
        message_index: 0,
        text: "Fix the failing test.".into(),
        probability: None,
        in_play: true,
    }])
}

fn stale_judge() -> Scripted {
    Scripted(vec![
        ("result_a", 0.1),
        ("call_a", 0.8), // keep the call, drop the contents
        ("result_c", 0.05),
        ("call_c", 0.1), // remove the pair
    ])
}

fn stale(questions: &[Question]) -> JudgeReply {
    stale_judge().reply(questions)
}

#[test]
fn deciding_records_verdicts_without_editing() {
    let mut ledger = PruneLedger::default();
    let messages = transcript();
    let report = decide(&mut ledger, &messages, &stale, &options(), MAX_QUESTIONS)
        .ok()
        .unwrap();
    assert_eq!(report.verdicts.len(), 3);
    let by_id = |id: &str| report.verdicts.iter().find(|v| v.call_id == id).unwrap();
    assert_eq!(by_id("a").decision, Decision::Truncate);
    assert_eq!(by_id("b").decision, Decision::Keep);
    assert_eq!(by_id("c").decision, Decision::Remove);
    assert_eq!(by_id("c").keep_result, Some(50_000));
    assert_eq!(ledger.pending_count(), 2);
    assert!(ledger.pending_tokens() > 0 && report.pending_tokens == ledger.pending_tokens());
    assert_eq!(messages.len(), transcript().len()); // untouched
}

#[test]
fn applying_edits_once_and_clears_the_ledger() {
    let mut ledger = PruneLedger::default();
    let messages = transcript();
    decide(&mut ledger, &messages, &stale, &options(), MAX_QUESTIONS)
        .ok()
        .unwrap();
    let (pruned, report) = ledger.apply(messages, &options(), ApplyTrigger::Manual);

    assert_eq!(
        (report.removed, report.truncated, report.skipped),
        (1, 1, 0)
    );
    assert!(report.after_tokens < report.before_tokens);
    assert_eq!(pruned.len(), transcript().len() - 2); // c's call and result are gone
    let a = pruned
        .iter()
        .find_map(|m| match m {
            AgentMessage::Llm(Message::ToolResult {
                tool_call_id,
                content,
                ..
            }) if tool_call_id == "a" => Some(text_of(content)),
            _ => None,
        })
        .unwrap();
    assert!(a.contains("more chars pruned"));
    assert_eq!(ledger.pending_count(), 0);
}

#[test]
fn apply_waits_for_savings_or_a_cold_cache() {
    let mut ledger = PruneLedger::default();
    let messages = transcript();
    decide(&mut ledger, &messages, &stale, &options(), MAX_QUESTIONS)
        .ok()
        .unwrap();
    let opts = PruneOptions {
        apply_min_share_ppm: 990_000,
        ..options()
    };
    ledger.note_request(1_000_000);
    assert_eq!(
        ledger.apply_trigger(total_tokens(&messages), 1_000_000 + 1_000, &opts),
        None
    );
    assert_eq!(
        ledger.apply_trigger(
            total_tokens(&messages),
            1_000_000 + opts.cache_ttl_ms,
            &opts
        ),
        Some(ApplyTrigger::ColdCache)
    );
    let generous = PruneOptions {
        apply_min_share_ppm: 10_000,
        ..options()
    };
    assert_eq!(
        ledger.apply_trigger(total_tokens(&messages), 1_000_000 + 1_000, &generous),
        Some(ApplyTrigger::Savings)
    );
}

#[test]
fn decide_asks_about_the_oldest_candidates_first_and_caps_requests() {
    let mut ledger = PruneLedger::default();
    let messages = transcript(); // candidates a, b, c in that order
    let opts = PruneOptions {
        max_requests_per_decide: 2,
        ..options()
    };
    // Room for the two questions of one call per request.
    let report = decide(&mut ledger, &messages, &stale, &opts, 2).ok().unwrap();
    assert_eq!(
        report.requests, 3,
        "one user-request round, two call rounds"
    );
    assert_eq!(report.batches.len(), 2);
    let asked: Vec<&str> = report.verdicts.iter().map(|v| v.call_id.as_str()).collect();
    assert_eq!(asked, vec!["a", "b"], "c waits for the next round");
    assert!(!ledger.is_fresh());
    assert_eq!(ledger.undecided(&messages, &opts).len(), 1);
}

#[test]
fn a_ledger_that_never_saw_a_request_treats_the_cache_as_cold() {
    let mut ledger = PruneLedger::default();
    let opts = options();
    assert!(ledger.cache_is_cold(1, opts.cache_ttl_ms));
    ledger.note_request(1_000);
    assert!(!ledger.cache_is_cold(1_000 + opts.cache_ttl_ms / 2, opts.cache_ttl_ms));
    assert!(ledger.cache_is_cold(1_000 + opts.cache_ttl_ms, opts.cache_ttl_ms));
}

#[test]
fn decide_is_rate_limited_by_context_growth() {
    let mut ledger = PruneLedger::default();
    let messages = transcript();
    let opts = options();
    assert!(ledger.should_decide(&messages, total_tokens(&messages), &opts));
    decide(&mut ledger, &messages, &stale, &opts, MAX_QUESTIONS)
        .ok()
        .unwrap();
    assert!(!ledger.should_decide(&messages, total_tokens(&messages), &opts));
    assert!(
        !ledger.should_decide(
            &messages,
            total_tokens(&messages) + opts.decide_growth_tokens,
            &opts
        ),
        "b was kept and a/c are pending: nothing new to ask about"
    );
}

#[test]
fn unanswered_questions_never_delete() {
    let mut ledger = PruneLedger::default();
    let silent = |q: &[Question]| Silent.reply(q);
    let report = decide(&mut ledger, &transcript(), &silent, &options(), MAX_QUESTIONS)
        .ok()
        .unwrap();
    assert!(report.verdicts.iter().all(|v| v.decision == Decision::Keep));
    assert_eq!(ledger.pending_count(), 0);
}

#[test]
fn state_names_candidates_shows_their_results_and_fits_the_budget() {
    let messages = transcript();
    let candidates = collect(&messages, 3);
    let (state, from, to) = render(&messages, &candidates, &task(), 400);
    assert_eq!((from, to), (1, 6));
    assert!(state.starts_with("# Task"), "{state}");
    assert!(state.contains("t0 call Read"));
    assert!(
        state.contains("t0 Read -> ok"),
        "results are shown, not just noted: {state}"
    );
    assert!(state.contains("later messages follow"), "{state}");
    assert!(
        estimate_tokens(&state) <= 400 + 60,
        "{}",
        estimate_tokens(&state)
    );
}

#[test]
fn a_batch_reads_only_its_own_stretch_of_the_conversation() {
    let messages = transcript();
    let candidates = collect(&messages, 3);
    assert!(candidates.len() >= 2);
    let last = &candidates[candidates.len() - 1..];
    let (state, _, _) = render(&messages, last, &task(), 4_000);
    assert!(state.contains("t0 call"), "{state}");
    assert!(!state.contains("t1 call"));
    // Earlier calls are outside the window, so the window starts after message 0.
    assert!(!state.contains("(messages 0–"), "{state}");
}

#[test]
fn token_estimate_counts_cjk_by_character() {
    assert_eq!(estimate_tokens("abcdefgh"), 2);
    assert_eq!(estimate_tokens("上下文裁剪"), 5);
    assert!(estimate_tokens(&"中".repeat(100_000)) > 90_000);
}

// Laws and edge cases of the ledger, on concrete values.

#[test]
fn a_failed_batch_leaves_its_calls_undecided_and_the_others_decided() {
    let mut ledger = PruneLedger::default();
    let messages = transcript();
    let opts = options();
    let start = ledger.begin_decide(&messages, &opts, 2);
    assert_eq!(start.candidates.len(), 3);
    let batches = plan_batches(&messages, &start.candidates, &task(), start.calls_per_request, REQUEST_TOKENS);
    assert_eq!(batches.len(), 3);
    let outcomes: Vec<(BatchReport, JudgeReply)> = batches
        .into_iter()
        .enumerate()
        .map(|(k, b)| {
            let report = BatchReport {
                from: b.from,
                to: b.to,
                state_tokens: 0,
                call_ids: b.call_ids.clone(),
                failed: None,
            };
            let reply = if k == 1 {
                JudgeReply::Failed("upstream 500".into())
            } else {
                stale(&b.questions)
            };
            (report, reply)
        })
        .collect();
    let report = ledger
        .finish_decide(&start.candidates, outcomes, &opts, start.context_tokens, 0, Vec::new(), 0)
        .ok()
        .unwrap();
    let asked: Vec<&str> = report.verdicts.iter().map(|v| v.call_id.as_str()).collect();
    assert_eq!(asked, vec!["a", "c"]);
    assert_eq!(report.batches[1].failed.as_deref(), Some("upstream 500"));
    // b's batch failed: it is asked about again next round.
    let undecided: Vec<String> = ledger
        .undecided(&messages, &opts)
        .into_iter()
        .map(|c| c.call_id)
        .collect();
    assert_eq!(undecided, vec!["b".to_string()]);
}

#[test]
fn a_round_in_which_every_batch_failed_is_an_error_and_records_nothing() {
    let mut ledger = PruneLedger::default();
    let messages = transcript();
    let opts = options();
    let start = ledger.begin_decide(&messages, &opts, MAX_QUESTIONS);
    let batches = plan_batches(&messages, &start.candidates, &task(), start.calls_per_request, REQUEST_TOKENS);
    let outcomes: Vec<(BatchReport, JudgeReply)> = batches
        .into_iter()
        .map(|b| {
            (
                BatchReport {
                    from: b.from,
                    to: b.to,
                    state_tokens: 0,
                    call_ids: b.call_ids,
                    failed: None,
                },
                JudgeReply::Failed("timeout".into()),
            )
        })
        .collect();
    match ledger.finish_decide(&start.candidates, outcomes, &opts, start.context_tokens, 0, Vec::new(), 0) {
        Err(DecideError::Failed(e)) => assert_eq!(e, "timeout"),
        _ => panic!("expected a failed round"),
    }
    assert_eq!(ledger.pending_count(), 0);
}

#[test]
fn a_cancelled_batch_cancels_the_round() {
    let mut ledger = PruneLedger::default();
    let messages = transcript();
    let opts = options();
    let start = ledger.begin_decide(&messages, &opts, MAX_QUESTIONS);
    let batches = plan_batches(&messages, &start.candidates, &task(), start.calls_per_request, REQUEST_TOKENS);
    let outcomes: Vec<(BatchReport, JudgeReply)> = batches
        .into_iter()
        .map(|b| {
            (
                BatchReport {
                    from: b.from,
                    to: b.to,
                    state_tokens: 0,
                    call_ids: b.call_ids,
                    failed: None,
                },
                JudgeReply::Cancelled,
            )
        })
        .collect();
    assert!(matches!(
        ledger.finish_decide(&start.candidates, outcomes, &opts, start.context_tokens, 0, Vec::new(), 0),
        Err(DecideError::Cancelled)
    ));
}

#[test]
fn batch_reports_come_back_sorted_by_their_first_message() {
    let mut ledger = PruneLedger::default();
    let messages = transcript();
    let opts = options();
    let start = ledger.begin_decide(&messages, &opts, 2);
    let batches = plan_batches(&messages, &start.candidates, &task(), 1, REQUEST_TOKENS);
    let mut outcomes: Vec<(BatchReport, JudgeReply)> = batches
        .into_iter()
        .map(|b| {
            let reply = stale(&b.questions);
            (
                BatchReport {
                    from: b.from,
                    to: b.to,
                    state_tokens: 0,
                    call_ids: b.call_ids,
                    failed: None,
                },
                reply,
            )
        })
        .collect();
    outcomes.reverse();
    let report = ledger
        .finish_decide(&start.candidates, outcomes, &opts, start.context_tokens, 1, Vec::new(), 0)
        .ok()
        .unwrap();
    let froms: Vec<usize> = report.batches.iter().map(|b| b.from).collect();
    assert_eq!(froms, vec![1, 3, 5]);
    assert_eq!(report.requests, 4);
}

#[test]
fn a_pinned_call_is_skipped_when_applying() {
    let mut ledger = PruneLedger::default();
    let messages = transcript();
    decide(&mut ledger, &messages, &stale, &options(), MAX_QUESTIONS)
        .ok()
        .unwrap();
    // Everything is pinned now: nothing may be edited.
    let pinned = PruneOptions {
        preserve_recent: 100,
        ..options()
    };
    let (kept, report) = ledger.apply(messages, &pinned, ApplyTrigger::RunEnd);
    assert_eq!((report.removed, report.truncated, report.skipped), (0, 0, 2));
    assert_eq!(kept.len(), transcript().len());
    assert_eq!(report.before_tokens, report.after_tokens);
}

#[test]
fn pruning_never_touches_user_messages() {
    let mut ledger = PruneLedger::default();
    let messages = transcript();
    decide(&mut ledger, &messages, &stale, &options(), MAX_QUESTIONS)
        .ok()
        .unwrap();
    let (pruned, _) = ledger.apply(messages, &options(), ApplyTrigger::Manual);
    let users: Vec<String> = pruned
        .iter()
        .filter_map(|m| match m {
            AgentMessage::Llm(Message::User { content, .. }) => Some(text_of(content)),
            _ => None,
        })
        .collect();
    assert_eq!(users, vec!["Fix the failing test.".to_string(), "continue".to_string()]);
}

#[test]
fn pinned_messages_are_never_candidates() {
    let messages = transcript();
    let ids: Vec<String> = collect(&messages, 3).into_iter().map(|c| c.call_id).collect();
    assert_eq!(ids, vec!["a".to_string(), "b".to_string(), "c".to_string()]);
    // With everything but the first message pinned, nothing is a candidate.
    assert!(collect(&messages, 9).is_empty());
}

#[test]
fn a_result_far_before_its_call_cannot_be_rendered() {
    let messages = vec![
        user("start"),
        result("x", "early"),
        user("next"),
        call("x", "Read"),
        user("later"),
    ];
    let candidates = collect(&messages, 0);
    assert_eq!(candidates.len(), 1);
    assert!(!renderable(&messages, &candidates, 1));
    assert!(renderable(&transcript(), &collect(&transcript(), 3), 1));
}
