use bendengine::agent::queue::{PromptQueue, PromptQueueError, QueueDrainMode};
use bendengine::types::{AgentMessage, Content, Message};

fn user(text: &str) -> AgentMessage {
    AgentMessage::Llm(Message::User {
        content: vec![Content::Text { text: text.into() }],
        timestamp: 0,
    })
}

fn text(m: &AgentMessage) -> String {
    match m {
        AgentMessage::Llm(Message::User { content, .. }) => match &content[0] {
            Content::Text { text } => text.clone(),
            _ => String::new(),
        },
        _ => String::new(),
    }
}

#[test]
fn enqueued_prompts_start_at_version_zero_with_distinct_ids() {
    let mut q = PromptQueue::new();
    assert!(q.is_empty());
    let a = q.enqueue(user("a"));
    let b = q.enqueue(user("b"));
    assert_eq!((a.version, b.version), (0, 0));
    assert_ne!(a.id, b.id);
    let ids: Vec<String> = q.list().into_iter().map(|e| e.id).collect();
    assert_eq!(ids, vec![a.id, b.id]);
}

#[test]
fn an_edit_against_a_stale_version_conflicts() {
    let mut q = PromptQueue::new();
    let a = q.enqueue(user("a"));
    let updated = q.update(&a.id, 0, user("a2")).ok().unwrap();
    assert_eq!(updated.version, 1);
    assert_eq!(text(&updated.message), "a2");
    match q.update(&a.id, 0, user("a3")) {
        Err(e @ PromptQueueError::VersionConflict { .. }) => assert_eq!(
            e.to_string(),
            "queued prompt version conflict: expected 0, actual 1"
        ),
        _ => panic!("expected a conflict"),
    }
    assert_eq!(text(&q.list()[0].message), "a2");
}

#[test]
fn a_missing_prompt_is_not_found() {
    let mut q = PromptQueue::new();
    match q.remove("nope", None) {
        Err(e @ PromptQueueError::NotFound(_)) => {
            assert_eq!(e.to_string(), "queued prompt not found: nope")
        }
        _ => panic!("expected not found"),
    }
}

#[test]
fn removing_checks_the_version_only_when_given() {
    let mut q = PromptQueue::new();
    let a = q.enqueue(user("a"));
    q.enqueue(user("b"));
    assert!(q.remove(&a.id, Some(3)).is_err());
    let removed = q.remove(&a.id, None).ok().unwrap();
    assert_eq!(text(&removed.message), "a");
    assert_eq!(q.list().len(), 1);
}

#[test]
fn moving_swaps_neighbours_and_bumps_both_versions() {
    let mut q = PromptQueue::new();
    let a = q.enqueue(user("a"));
    let b = q.enqueue(user("b"));
    let moved = q.move_down(&a.id, 0).ok().unwrap();
    assert_eq!(moved.id, a.id);
    assert_eq!(moved.version, 1);
    let list = q.list();
    assert_eq!((list[0].id.clone(), list[0].version), (b.id.clone(), 1));
    assert_eq!((list[1].id.clone(), list[1].version), (a.id.clone(), 1));
    // Already last: nothing moves, nothing changes.
    let stay = q.move_down(&a.id, 1).ok().unwrap();
    assert_eq!(stay.version, 1);
    let up = q.move_up(&a.id, 1).ok().unwrap();
    assert_eq!(up.version, 2);
    assert_eq!(q.list()[0].id, a.id);
}

#[test]
fn draining_takes_the_oldest_first() {
    let mut q = PromptQueue::new();
    q.enqueue(user("a"));
    q.enqueue(user("b"));
    q.enqueue(user("c"));
    let one = q.drain_messages(QueueDrainMode::One);
    assert_eq!(one.iter().map(text).collect::<Vec<_>>(), vec!["a"]);
    let rest = q.drain_messages(QueueDrainMode::All);
    assert_eq!(rest.iter().map(text).collect::<Vec<_>>(), vec!["b", "c"]);
    assert!(q.is_empty());
    assert!(q.drain_messages(QueueDrainMode::One).is_empty());
}

#[test]
fn a_pushed_back_entry_gets_a_new_version() {
    let mut q = PromptQueue::new();
    let a = q.enqueue(user("a"));
    let removed = q.remove(&a.id, Some(0)).ok().unwrap();
    let back = q.push_existing(removed);
    assert_eq!(back.version, 1);
    assert_eq!(back.id, a.id);
    q.clear();
    assert!(q.is_empty());
}
