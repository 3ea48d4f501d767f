use rust_mcp_gateway::request::{
    AdmissionError, Coordinator, Lease, RequestSpec, Turn, Waking,
};
use rust_mcp_gateway::span::Span;

fn spec(child: &str) -> RequestSpec {
    spec_with_limits(child, "tool", 1, 1)
}

fn spec_with_limits(
    child: &str,
    tool: &str,
    child_limit: usize,
    tool_limit: usize,
) -> RequestSpec {
    RequestSpec {
        child: child.into(),
        child_limit,
        tool: format!("{child}:{tool}"),
        tool_limit,
    }
}

fn admitted(turn: Turn) -> Lease {
    match turn {
        Turn::Admitted(lease) => lease,
        other => panic!("not admitted: {other:?}"),
    }
}

fn lease(coordinator: &mut Coordinator, spec: RequestSpec) -> Lease {
    let id = coordinator.acquire(spec).unwrap();
    admitted(coordinator.take_turn(id, Waking::Notified))
}

#[test]
fn cancellation_before_admission_never_leases() {
    let mut coordinator = Coordinator::new(1, 1, Span::from_secs(1));
    let first = lease(&mut coordinator, spec("a"));
    let id = coordinator.acquire(spec("a")).unwrap();
    assert!(matches!(coordinator.take_turn(id, Waking::Notified), Turn::Wait));
    assert!(matches!(
        coordinator.take_turn(id, Waking::Cancelled),
        Turn::Refused(AdmissionError::Cancelled)
    ));
    assert_eq!(coordinator.queued(), 0);
    coordinator.release(first);
}

#[test]
fn queued_cancellation_never_dispatches_after_capacity_returns() {
    let mut coordinator = Coordinator::new(1, 2, Span::from_secs(1));
    let first = lease(&mut coordinator, spec("a"));
    let waiting = coordinator.acquire(spec("a")).unwrap();
    assert!(matches!(coordinator.take_turn(waiting, Waking::Notified), Turn::Wait));
    assert_eq!(coordinator.queued(), 1);
    assert!(matches!(
        coordinator.take_turn(waiting, Waking::Cancelled),
        Turn::Refused(AdmissionError::Cancelled)
    ));
    assert_eq!(coordinator.queued(), 0);
    assert_eq!(coordinator.active(), 1);
    coordinator.release(first);
    assert_eq!(coordinator.active(), 0);
    assert!(coordinator.try_dispatch(waiting).is_none());
}

#[test]
fn saturated_and_expired_queue_entries_never_lease() {
    let mut coordinator = Coordinator::new(1, 1, Span::from_millis(20));
    let first = lease(&mut coordinator, spec("a"));
    let waiting = coordinator.acquire(spec("a")).unwrap();
    assert!(matches!(coordinator.acquire(spec("b")), Err(AdmissionError::Saturated)));
    assert!(matches!(
        coordinator.take_turn(waiting, Waking::Deadline),
        Turn::Refused(AdmissionError::Deadline)
    ));
    assert_eq!(coordinator.queued(), 0);
    assert_eq!(coordinator.active(), 1);
    coordinator.release(first);
}

#[test]
fn later_eligible_child_bypasses_blocked_head() {
    let mut coordinator = Coordinator::new(2, 4, Span::from_secs(1));
    let first = lease(&mut coordinator, spec("a"));
    let blocked = coordinator.acquire(spec("a")).unwrap();
    assert!(matches!(coordinator.take_turn(blocked, Waking::Notified), Turn::Wait));
    let other = lease(&mut coordinator, spec("b"));
    coordinator.release(other);
    coordinator.release(first);
    let second = admitted(coordinator.take_turn(blocked, Waking::Notified));
    coordinator.release(second);
}

#[test]
fn closed_admission_rejects_new_requests() {
    let mut coordinator = Coordinator::new(1, 1, Span::from_secs(1));
    coordinator.close_admission();
    assert!(matches!(coordinator.acquire(spec("a")), Err(AdmissionError::Draining)));
    assert_eq!(coordinator.queued(), 0);
}

#[test]
fn drain_rejects_mixed_reads_and_mutations_until_dispatched_work_finishes() {
    let mut coordinator = Coordinator::new(1, 2, Span::from_secs(1));
    let mutation = lease(
        &mut coordinator,
        spec_with_limits("filesystem", "write_text_file", 1, 1),
    );
    coordinator.close_admission();

    for tool in ["read_text_file", "write_text_file"] {
        assert!(matches!(
            coordinator.acquire(spec_with_limits("filesystem", tool, 1, 1)),
            Err(AdmissionError::Draining)
        ));
    }
    assert_eq!(coordinator.wait_idle(Waking::Notified), None);
    assert_eq!(coordinator.wait_idle(Waking::Deadline), Some(false));
    coordinator.release(mutation);
    assert_eq!(coordinator.wait_idle(Waking::Notified), Some(true));
}

#[test]
fn wait_idle_waits_for_dispatched_work() {
    let mut coordinator = Coordinator::new(1, 1, Span::from_secs(1));
    let lease = lease(&mut coordinator, spec("a"));
    assert_eq!(coordinator.wait_idle(Waking::Notified), None);
    assert_eq!(coordinator.wait_idle(Waking::Deadline), Some(false));
    coordinator.release(lease);
    assert_eq!(coordinator.wait_idle(Waking::Notified), Some(true));
}

#[test]
fn per_tool_limit_does_not_block_another_tool_in_same_child() {
    let mut coordinator = Coordinator::new(2, 4, Span::from_secs(1));
    let first = lease(&mut coordinator, spec_with_limits("a", "first", 2, 1));
    let other = lease(&mut coordinator, spec_with_limits("a", "second", 2, 1));
    let waiting = coordinator.acquire(spec_with_limits("a", "first", 2, 1)).unwrap();
    assert!(matches!(coordinator.take_turn(waiting, Waking::Notified), Turn::Wait));
    assert_eq!(coordinator.queued(), 1);
    coordinator.release(first);
    let third = admitted(coordinator.take_turn(waiting, Waking::Notified));
    coordinator.release(third);
    coordinator.release(other);
}

#[test]
fn bounded_scheduler_soak_releases_all_capacity_without_leaks() {
    const GLOBAL_LIMIT: usize = 8;
    const QUEUE_LIMIT: usize = 32;
    const BATCH: usize = GLOBAL_LIMIT + QUEUE_LIMIT;
    const ROUNDS: usize = 100;

    let mut coordinator = Coordinator::new(GLOBAL_LIMIT, QUEUE_LIMIT, Span::from_secs(2));

    for round in 0..ROUNDS {
        let mut waiting = Vec::new();
        let mut leases = Vec::new();
        for index in 0..BATCH {
            let child = format!("child-{}", index % 4);
            let tool = format!("tool-{}", index % 8);
            let id = coordinator
                .acquire(spec_with_limits(&child, &tool, GLOBAL_LIMIT, GLOBAL_LIMIT))
                .expect("bounded soak admission should fit active + queue capacity");
            match coordinator.take_turn(id, Waking::Notified) {
                Turn::Admitted(lease) => leases.push(lease),
                Turn::Wait => waiting.push(id),
                Turn::Refused(error) => panic!("refused: {error:?}"),
            }
            assert!(coordinator.active() <= GLOBAL_LIMIT);
            assert!(coordinator.queued() <= QUEUE_LIMIT);
        }
        while let Some(lease) = leases.pop() {
            coordinator.release(lease);
            let mut still = Vec::new();
            for id in waiting {
                match coordinator.take_turn(id, Waking::Notified) {
                    Turn::Admitted(lease) => leases.push(lease),
                    Turn::Wait => still.push(id),
                    Turn::Refused(error) => panic!("refused: {error:?}"),
                }
            }
            waiting = still;
            assert!(coordinator.active() <= GLOBAL_LIMIT);
        }
        assert!(waiting.is_empty());
        assert_eq!(coordinator.active(), 0, "round {round} leaked active scheduler capacity");
        assert_eq!(coordinator.queued(), 0, "round {round} leaked queued scheduler capacity");
    }

    assert!(coordinator.is_accepting());
    assert_eq!(coordinator.wait_idle(Waking::Notified), Some(true));
}

#[test]
fn waiting_requests_leave_when_admission_closes_and_return_after_it_opens() {
    let mut coordinator = Coordinator::new(1, 2, Span::from_secs(1));
    let first = lease(&mut coordinator, spec("a"));
    let waiting = coordinator.acquire(spec("b")).unwrap();
    coordinator.close_admission();
    assert!(!coordinator.is_accepting());
    assert!(coordinator.try_dispatch(waiting).is_none());
    assert!(matches!(
        coordinator.take_turn(waiting, Waking::Notified),
        Turn::Refused(AdmissionError::Draining)
    ));
    coordinator.open_admission();
    coordinator.release(first);
    let again = lease(&mut coordinator, spec("b"));
    assert_eq!(coordinator.active(), 1);
    coordinator.release(again);
}

#[test]
fn numbers_are_given_once() {
    let mut coordinator = Coordinator::new(1, 8, Span::from_secs(3));
    assert_eq!(coordinator.next_id(), 0);
    assert_eq!(coordinator.acquire(spec("a")), Ok(0));
    assert_eq!(coordinator.acquire(spec("a")), Ok(1));
    coordinator.remove(0);
    assert_eq!(coordinator.acquire(spec("a")), Ok(2));
    assert_eq!(coordinator.queued(), 2);
    assert_eq!(coordinator.wait().as_secs(), 3);
    assert!(coordinator.try_dispatch(2).is_none());
    assert!(coordinator.try_dispatch(1).is_some());
}

#[test]
fn requests_count_until_they_give_back_and_never_beyond_the_limit() {
    let mut coordinator = Coordinator::new(2, 3, Span::from_secs(1));
    let first = lease(&mut coordinator, spec("a"));
    let second = lease(&mut coordinator, spec("b"));
    assert_eq!(coordinator.active(), 2);
    let third = coordinator.acquire(spec("c")).unwrap();
    let fourth = coordinator.acquire(spec("d")).unwrap();
    let fifth = coordinator.acquire(spec("e")).unwrap();
    assert_eq!(coordinator.acquire(spec("f")).unwrap_err(), AdmissionError::Saturated);
    assert!(matches!(coordinator.take_turn(third, Waking::Notified), Turn::Wait));
    assert!(matches!(
        coordinator.take_turn(fourth, Waking::Deadline),
        Turn::Refused(AdmissionError::Deadline)
    ));
    assert!(matches!(
        coordinator.take_turn(fifth, Waking::Cancelled),
        Turn::Refused(AdmissionError::Cancelled)
    ));
    assert_eq!((coordinator.active(), coordinator.queued()), (2, 1));
    coordinator.release(first);
    assert_eq!(coordinator.active(), 1);
    let third = admitted(coordinator.take_turn(third, Waking::Notified));
    assert_eq!((coordinator.active(), coordinator.queued()), (2, 0));
    coordinator.release(second);
    coordinator.release(third);
    assert_eq!((coordinator.active(), coordinator.queued()), (0, 0));
}
