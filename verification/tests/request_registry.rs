use rust_mcp_gateway::request_registry::{Phase, Registry, MAX_ACTIVE_REQUESTS};

#[test]
fn tracks_only_active_requests_with_generated_correlation_ids() {
    let mut registry = Registry::new();
    let ticket = registry.begin("filesystem".into(), "read_text_file".into()).unwrap();
    let id = ticket.id().to_owned();
    assert!(uuid::Uuid::parse_str(&id).is_ok());
    assert_eq!(registry.active()[0].phase, Phase::Queued);
    ticket.dispatched(&mut registry, "child-42".into());
    ticket.pending(&mut registry);
    let view = registry.active().pop().unwrap();
    assert_eq!(view.request_id, id);
    assert_eq!(view.child_request_id.as_deref(), Some("child-42"));
    assert_eq!(view.phase, Phase::Pending);
    ticket.finish(&mut registry);
    assert!(registry.active().is_empty());
}

#[test]
fn the_registry_is_bounded() {
    let mut registry = Registry::new();
    let mut tickets = Vec::new();
    for _ in 0..MAX_ACTIVE_REQUESTS {
        tickets.push(registry.begin("git".into(), "status".into()).unwrap());
    }
    assert!(registry.begin("git".into(), "status".into()).is_none());
    tickets.pop().unwrap().finish(&mut registry);
    assert!(registry.begin("git".into(), "status".into()).is_some());
}

#[test]
fn requests_are_listed_in_the_order_of_their_identifiers() {
    let mut registry = Registry::new();
    registry.begin_as("b".into(), "git".into(), "log".into(), 7).unwrap();
    let early = registry.begin_as("a".into(), "git".into(), "status".into(), 9).unwrap();
    let active = registry.active();
    assert_eq!(active[0].request_id, "a");
    assert_eq!(active[0].started_at_ms, 9);
    assert_eq!(active[1].tool, "log");
    early.finish(&mut registry);
    assert_eq!(registry.active().len(), 1);
}

#[test]
fn identifiers_and_times_are_those_of_the_machine() {
    let mut registry = Registry::new();
    let ticket = registry.begin("git".into(), "status".into()).unwrap();
    let other = registry.begin("git".into(), "status".into()).unwrap();
    assert_ne!(ticket.id(), other.id());
    assert_eq!(ticket.id().len(), 36);
    assert_eq!(ticket.id().as_bytes()[14], b'4');
    assert!(registry.active()[0].started_at_ms > 1_600_000_000_000);
}

#[test]
fn exactly_the_requests_under_way_are_listed_with_their_own_state() {
    let mut registry = Registry::new();
    let a = registry.begin_as("a".into(), "git".into(), "status".into(), 1).unwrap();
    let b = registry.begin_as("b".into(), "git".into(), "log".into(), 2).unwrap();
    let c = registry.begin_as("c".into(), "fs".into(), "read".into(), 3).unwrap();
    b.dispatched(&mut registry, "child-1".into());
    c.pending(&mut registry);
    a.finish(&mut registry);
    let told: Vec<(String, Phase, Option<String>)> = registry
        .active()
        .into_iter()
        .map(|view| (view.request_id, view.phase, view.child_request_id))
        .collect();
    assert_eq!(
        told,
        vec![
            ("b".to_owned(), Phase::Dispatched, Some("child-1".to_owned())),
            ("c".to_owned(), Phase::Pending, None),
        ]
    );
    b.finish(&mut registry);
    c.finish(&mut registry);
    assert!(registry.active().is_empty());
}
