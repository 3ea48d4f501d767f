use rust_mcp_gateway::span::Span;
use rust_mcp_gateway::telemetry::{
    request_event, request_observation, GuardAction, Observation, RecoveryState, RequestOutcome,
    Store, MAX_BATCH_EVENTS, MAX_EVENTS,
};

fn catalog(generation: u64) -> Observation {
    Observation::Catalog {
        catalog_generation: generation,
        profile_generation: 1,
        catalog_fingerprint: "a".repeat(64),
        profile_fingerprint: "b".repeat(64),
    }
}

#[test]
fn bounded_batch_contains_only_sanitized_fields() {
    let mut store = Store::new();
    store.record(Observation::Request {
        request_id: "request-1".into(),
        child: "filesystem".into(),
        tool: "read_text_file".into(),
        outcome: RequestOutcome::Returned,
        queue_ms: 4,
        execution_ms: 12,
        response_bytes: 28,
        guard: GuardAction::Passed,
        catalog_generation: 2,
        profile_generation: 3,
    });
    let shown = format!("{:?}", store.after(0));
    assert!(shown.contains("read_text_file"));
    assert!(!shown.contains("arguments"));
    assert!(!shown.contains("result"));
    assert_eq!(store.after(1).events.len(), 0);
}

#[test]
fn retention_is_bounded_and_reports_gap() {
    let mut store = Store::new();
    for _ in 0..=MAX_EVENTS {
        store.record(Observation::Catalog {
            catalog_generation: 1,
            profile_generation: 1,
            catalog_fingerprint: "a".repeat(64),
            profile_fingerprint: "b".repeat(64),
        });
    }
    let batch = store.after(241);
    assert_eq!(batch.events.len(), MAX_BATCH_EVENTS);
    assert_eq!(batch.first_available_sequence, 2);
    assert_eq!(batch.last_sequence, 257);
}

#[test]
fn an_empty_history_starts_at_one() {
    let store = Store::new();
    let batch = store.after(7);
    assert_eq!(batch.first_available_sequence, 1);
    assert_eq!(batch.last_sequence, 0);
    assert!(batch.events.is_empty());
}

#[test]
fn pages_give_every_kept_event_once() {
    let mut store = Store::new();
    for generation in 0..300 {
        store.record_at(catalog(generation), 1_000 + generation as u128);
    }
    let mut after = 0;
    let mut seen = Vec::new();
    loop {
        let batch = store.after(after);
        if batch.events.is_empty() {
            assert_eq!(batch.last_sequence, 300);
            break;
        }
        seen.extend(batch.events.iter().map(|event| event.sequence));
        after = batch.last_sequence;
    }
    let expected: Vec<u64> = (45..=300).collect();
    assert_eq!(seen, expected);
    let first = store.after(0);
    assert_eq!(first.events[0].observed_at_ms, 1_044);
    assert_eq!(first.events[0].observation, catalog(44));
    assert_eq!(store.after(1_000).last_sequence, 300);
}

#[test]
fn several_observations_are_recorded_in_order() {
    let mut store = Store::new();
    store.record_all(vec![
        catalog(1),
        Observation::ChildRecovery {
            child: "git".into(),
            state: RecoveryState::HalfOpen,
            generation: 3,
        },
    ]);
    let batch = store.after(0);
    assert_eq!(batch.events.len(), 2);
    assert_eq!(batch.events[0].observation, catalog(1));
    assert!(batch.events[1].observed_at_ms > 1_600_000_000_000);
}

#[test]
fn times_are_noted_in_whole_milliseconds() {
    let observation = request_observation(
        "git",
        "status",
        RequestOutcome::Failed,
        Span::new(1, 999_999_999),
        Span::new(u64::MAX, 0),
        9,
        GuardAction::NotApplied,
    );
    assert_eq!(observation.queue_ms, 1_999);
    assert_eq!(observation.execution_ms, u64::MAX);
    let event = request_event("id", observation, 5, 6);
    match event {
        Observation::Request {
            request_id,
            child,
            tool,
            outcome,
            queue_ms,
            response_bytes,
            catalog_generation,
            profile_generation,
            ..
        } => {
            assert_eq!(request_id, "id");
            assert_eq!(child, "git");
            assert_eq!(tool, "status");
            assert_eq!(outcome, RequestOutcome::Failed);
            assert_eq!(queue_ms, 1_999);
            assert_eq!(response_bytes, 9);
            assert_eq!((catalog_generation, profile_generation), (5, 6));
        }
        other => panic!("unexpected {other:?}"),
    }
}
