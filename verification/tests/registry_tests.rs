use nekocode::message::{Message, MessageContent, MessageType, Turn, Usage};
use nekocode::registry::{
    panic_message, run_state_name, SubagentNotFound, SubagentRegistry, SubagentRunOutcome,
    SubagentRunResult, SubagentSnapshot, WaitAllOutcome, WaitAnyOutcome,
};
use nekocode::spawn::run_outcome;

fn finished_result() -> SubagentRunResult {
    SubagentRunResult { usage: Usage::zero(), messages: Vec::new(), finished: true }
}

#[test]
fn instant_completion_never_regresses_to_running() {
    let mut registry = SubagentRegistry::new();
    let id = registry.spawn().unwrap();
    registry.complete(id, SubagentRunOutcome::Finished(finished_result()));
    let outcome = registry.poll_any(&[id]).unwrap().expect("ready");
    assert!(matches!(
        outcome,
        WaitAnyOutcome::Ready { snapshot: SubagentSnapshot::Finished(_), .. }
    ));
    assert!(matches!(registry.snapshot(id), Some(SubagentSnapshot::Finished(_))));
}

#[test]
fn terminal_snapshot_contains_its_result_atomically() {
    let mut registry = SubagentRegistry::new();
    let id = registry.spawn().unwrap();
    registry.complete(id, SubagentRunOutcome::Finished(finished_result()));
    let snapshot = registry.snapshot(id).unwrap();
    assert!(snapshot.is_ready());
    assert!(snapshot.result().is_some());
}

#[test]
fn error_snapshot_keeps_partial_result() {
    let mut registry = SubagentRegistry::new();
    let id = registry.spawn().unwrap();
    registry.complete(
        id,
        SubagentRunOutcome::Error {
            error: "boom".into(),
            partial: SubagentRunResult { usage: Usage::zero(), messages: Vec::new(), finished: false },
        },
    );
    let snapshot = registry.snapshot(id).unwrap();
    assert_eq!(snapshot.error(), Some("boom"));
    assert!(!snapshot.result().unwrap().finished);
}

#[test]
fn wait_all_observes_fast_completions_without_lost_wakeup() {
    let mut registry = SubagentRegistry::new();
    let first = registry.spawn().unwrap();
    let second = registry.spawn().unwrap();
    registry.complete(first, SubagentRunOutcome::Finished(finished_result()));
    registry.complete(second, SubagentRunOutcome::Finished(finished_result()));
    let outcome = registry.poll_all(&[first, second]).unwrap();
    assert!(matches!(outcome, WaitAllOutcome::Ready { .. }));
}

#[test]
fn abort_during_start_or_run_cancels_and_removes_task() {
    let mut registry = SubagentRegistry::new();
    let id = registry.spawn().unwrap();
    assert!(registry.abort(id));
    registry.complete(
        id,
        SubagentRunOutcome::Error { error: "cancelled".into(), partial: SubagentRunResult::empty_partial() },
    );
    assert!(registry.snapshot(id).is_none());
    assert!(!registry.abort(id));
}

#[test]
fn abort_all_closes_registry_until_next_turn() {
    let mut registry = SubagentRegistry::new();
    let id = registry.spawn().unwrap();
    assert_eq!(registry.abort_all_and_clear(), vec![id]);
    assert!(registry.spawn().is_err());
    registry.begin_turn();
    assert!(registry.spawn().is_ok());
}

#[test]
fn registry_allocate_ids_are_unique_and_start_at_one() {
    let mut registry = SubagentRegistry::new();
    let a = registry.spawn().unwrap();
    let b = registry.spawn().unwrap();
    let c = registry.spawn().unwrap();
    assert_eq!((a, b, c), (1, 2, 3));
    assert_eq!(registry.all_agent_ids(), vec![1, 2, 3]);
}

#[test]
fn running_ids_exclude_terminal_runs() {
    let mut registry = SubagentRegistry::new();
    let a = registry.spawn().unwrap();
    let b = registry.spawn().unwrap();
    registry.complete(a, SubagentRunOutcome::Finished(finished_result()));
    assert_eq!(registry.running_agent_ids(), vec![b]);
    assert_eq!(run_state_name(registry.snapshot(a).unwrap()), "finished");
    assert_eq!(run_state_name(registry.snapshot(b).unwrap()), "running");
}

#[test]
fn wait_any_unknown_id_is_not_found() {
    let mut registry = SubagentRegistry::new();
    let a = registry.spawn().unwrap();
    match registry.poll_any(&[a, 42]) {
        Err(e) => {
            assert_eq!(e, SubagentNotFound(42));
            assert_eq!(e.message(), "agent 42 not found");
        }
        Ok(_) => panic!("expected not found"),
    }
    assert!(matches!(registry.poll_any(&[a]), Ok(None)));
    match WaitAnyOutcome::timed_out(&[a]) {
        WaitAnyOutcome::Timeout { pending } => assert_eq!(pending, vec![a]),
        _ => panic!("expected timeout"),
    }
}

#[test]
fn wait_all_reports_ready_and_pending() {
    let mut registry = SubagentRegistry::new();
    let a = registry.spawn().unwrap();
    let b = registry.spawn().unwrap();
    registry.complete(b, SubagentRunOutcome::Finished(finished_result()));
    match registry.poll_all(&[a, b]).unwrap() {
        WaitAllOutcome::Timeout { ready, pending } => {
            assert_eq!(ready, vec![b]);
            assert_eq!(pending, vec![a]);
        }
        _ => panic!("expected pending"),
    }
    assert!(matches!(registry.poll_all(&[]), Ok(WaitAllOutcome::Ready { results }) if results.is_empty()));
    assert!(matches!(registry.poll_all(&[7]), Err(SubagentNotFound(7))));
}

#[test]
fn panic_message_uses_payload_text() {
    assert_eq!(panic_message(Some("oops")), "subagent task panicked: oops");
    assert_eq!(panic_message(None), "subagent task panicked");
}

fn turn(finished: bool) -> Turn {
    Turn {
        messages: vec![Message {
            data: MessageType::User(vec![MessageContent::Text { content: "hi".into() }]),
            usage: None,
            created_at: 0,
        }],
        usage: Usage { total_input: 10, total_output: 5, cache_hit: false, cache_miss: 10 },
        finished,
    }
}

#[test]
fn run_subagent_success_stores_result() {
    let mut registry = SubagentRegistry::new();
    let id = registry.spawn().unwrap();
    registry.complete(id, run_outcome(Ok(turn(true))));
    let snapshot = registry.snapshot(id).unwrap();
    assert_eq!(snapshot.name(), "finished");
    let result = snapshot.result().expect("result stored");
    assert!(result.finished);
    assert_eq!(result.messages.len(), 1);
    assert_eq!(result.usage.total_input, 10);
}

#[test]
fn run_subagent_error_marks_error_state() {
    let mut registry = SubagentRegistry::new();
    let id = registry.spawn().unwrap();
    registry.complete(id, run_outcome(Err(turn(false))));
    let snapshot = registry.snapshot(id).unwrap();
    assert_eq!(snapshot.name(), "error");
    assert!(snapshot.is_ready());
    assert_eq!(snapshot.error(), Some("subagent run_loop failed"));
}
