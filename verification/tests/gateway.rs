use rust_mcp_gateway::call::{
    artifact_page, called_tool, cancel_reason, observe_child_outcome, plan_artifact_read, CallEnd,
    Called, ChildResponse, LateSighting, Refusal, WaitEnd,
};
use rust_mcp_gateway::calls::Measures;
use rust_mcp_gateway::catalog::{ChildTool, Snapshot};
use rust_mcp_gateway::config::{ChildConfig, RestartConfig, RestartPolicy};
use rust_mcp_gateway::config_files::LoadedConfig;
use rust_mcp_gateway::control::{
    accept_request, Action, DrainReason, Request, WireRequest, PROTOCOL_VERSION,
};
use rust_mcp_gateway::gateway::{
    ControlStep, DrainPhase, DrainTimedOut, GatewayCore, StaleDrain,
};
use rust_mcp_gateway::name_map::{NameMap, NameSet};
use rust_mcp_gateway::policy::{Mode, Payload};
use rust_mcp_gateway::recovery::{Policy, State};
use rust_mcp_gateway::reload::{Arrival, Reload, Started};
use rust_mcp_gateway::reply::{
    tool_payload_too_large, tool_response_guard, tool_unknown_outcome,
    tool_unknown_outcome_with_correlation, ArtifactNote, ToolReply,
};
use rust_mcp_gateway::request::{AdmissionError, Turn, Waking};
use rust_mcp_gateway::request_registry::Phase;
use rust_mcp_gateway::span::Span;
use rust_mcp_gateway::supervisor::{reload_reason, watch_interval};
use rust_mcp_gateway::telemetry::{GuardAction, Observation, RecoveryState, RequestOutcome};
use rust_mcp_gateway::{artifact, request_registry};

fn item(name: &str) -> LoadedConfig {
    LoadedConfig {
        source: "/servers.d/x.yaml".into(),
        config: ChildConfig {
            name: name.into(),
            enabled: true,
            command: "/bin/x".into(),
            args: vec![],
            env: NameMap::new(),
            tool_prefix: None,
            tool_allowlist: vec![],
            timeout_ms: 40,
            restart: RestartConfig::default(),
        },
    }
}

fn gateway() -> GatewayCore {
    let mut core = GatewayCore::new_at(Mode::LegacyCompat, 12, 34);
    let mut reload = Reload::new(Mode::LegacyCompat);
    let mut loaded = Vec::new();
    for (child, tool) in [("delayed", "mutate"), ("git", "status")] {
        let arrival = Arrival::Started(Started {
            command_signature: None,
            tools: vec![ChildTool { name: tool.into(), description: None }],
        });
        reload = reload.step_at(&mut core.state, &item(child), arrival, false, 5).unwrap().0;
        loaded.push(item(child));
    }
    core.commit(reload.finish(&loaded).unwrap());
    core
}

fn measures() -> Measures {
    Measures {
        queue: Span::from_millis(3),
        execution: Span::from_millis(40),
        response_bytes: 0,
        guard: GuardAction::NotApplied,
    }
}

fn control(action: Action) -> Request {
    Request { action, drain_generation: None, after_sequence: None }
}

#[test]
fn unknown_outcome_is_structured_non_retryable_error() {
    let result = tool_unknown_outcome("pending side effect".into());
    assert_eq!(result.code, "child_outcome_unknown");
    assert_eq!(result.retryable, false);
    assert_eq!(result.outcome, "unknown");
    assert_eq!(result.message, "pending side effect");
}

#[test]
fn pending_outcome_includes_gateway_correlation_id() {
    let result =
        tool_unknown_outcome_with_correlation("pending side effect".into(), "request-1".into());
    assert_eq!(result.gateway_request_id.as_deref(), Some("request-1"));
}

#[test]
fn replies_tell_what_was_too_large() {
    let request = tool_payload_too_large("request", 9, 8);
    assert_eq!(request.code, "payload_too_large");
    assert_eq!((request.kind, request.actual_bytes, request.limit_bytes), ("request", 9, 8));
    assert!(!request.retryable);
    let held = tool_response_guard(
        ("text", 6, 3),
        Some("abc".into()),
        Some(ArtifactNote::Unavailable("full".into())),
    );
    assert_eq!(held.code, "response_guarded");
    assert_eq!(held.preview.as_deref(), Some("abc"));
    assert_eq!(
        held.guidance,
        "Narrow the requested path, range, query, or result set before issuing a new request."
    );
}

#[test]
fn own_tools_go_before_those_of_children() {
    assert_eq!(called_tool("gateway_list_servers"), Called::ListServers);
    assert_eq!(called_tool("gateway_reload"), Called::Reload);
    assert_eq!(called_tool("gateway_set_server_enabled"), Called::SetEnabled);
    assert_eq!(called_tool("gateway_read_artifact"), Called::ReadArtifact);
    assert_eq!(called_tool("gateway_other"), Called::Child);
}

#[test]
fn calls_are_refused_in_order() {
    let mut core = gateway();
    match core.open_call("status", None).unwrap_err() {
        Refusal::Reply(ToolReply::Text(text)) => {
            assert_eq!(text, "Gateway cannot encode tool arguments")
        }
        other => panic!("unexpected {other:?}"),
    }
    match core.open_call("gone", Some(2)).unwrap_err() {
        Refusal::InvalidParams(text) => assert_eq!(text, "unknown tool 'gone'"),
        other => panic!("unexpected {other:?}"),
    }
    core.state.children = NameMap::new();
    match core.open_call("status", Some(2)).unwrap_err() {
        Refusal::InvalidParams(text) => assert_eq!(text, "child MCP 'git' is not running"),
        other => panic!("unexpected {other:?}"),
    }
    assert!(core.request_registry.active().is_empty());
}

#[test]
fn a_full_registry_refuses_calls() {
    let mut core = gateway();
    let mut open = Vec::new();
    for _ in 0..request_registry::MAX_ACTIVE_REQUESTS {
        open.push(core.open_call("status", Some(2)).unwrap());
    }
    match core.open_call("status", Some(2)).unwrap_err() {
        Refusal::Reply(ToolReply::Text(text)) => {
            assert_eq!(text, "Gateway active request registry is full")
        }
        other => panic!("unexpected {other:?}"),
    }
}

#[test]
fn timeout_after_dispatch_returns_unknown_without_replaying_child_mutation() {
    let mut core = gateway();
    let open = core.open_call("mutate", Some(2)).unwrap();
    assert_eq!(open.call.child, "delayed");
    assert_eq!(open.call.spec.tool, "delayed:mutate");
    assert_eq!((open.call.spec.child_limit, open.call.spec.tool_limit), (4, 4));
    assert_eq!(open.call.timeout_ms, 40);
    let id = core.coordinator.acquire(open.call.spec.clone()).unwrap();
    let lease = match core.coordinator.take_turn(id, Waking::Notified) {
        Turn::Admitted(lease) => lease,
        other => panic!("unexpected {other:?}"),
    };
    open.ticket.dispatched(&mut core.request_registry, "child-1".into());
    assert_eq!(cancel_reason(WaitEnd::TimedOut, 40), "gateway child timeout after 40 ms");
    let reply = core.end_call("mutate", &open, &CallEnd::WaitEnded("None".into()), measures());
    match reply.unwrap() {
        ToolReply::Unknown(unknown) => {
            assert_eq!(unknown.code, "child_outcome_unknown");
            assert!(!unknown.retryable);
            assert_eq!(unknown.outcome, "unknown");
            assert_eq!(unknown.gateway_request_id.as_deref(), Some(open.ticket.id()));
            assert_eq!(
                unknown.message,
                "child MCP call ended upstream wait after dispatch for 'mutate'; outcome is pending; do not automatically retry; cancel_error=None"
            );
        }
        other => panic!("unexpected {other:?}"),
    }
    let view = core.request_registry.active().pop().unwrap();
    assert_eq!(view.phase, Phase::Pending);
    assert_eq!(view.child_request_id.as_deref(), Some("child-1"));
    match &core.telemetry.after(1).events[0].observation {
        Observation::Request { outcome, queue_ms, execution_ms, catalog_generation, .. } => {
            assert_eq!(*outcome, RequestOutcome::Unknown);
            assert_eq!((*queue_ms, *execution_ms, *catalog_generation), (3, 40, 1));
        }
        other => panic!("unexpected {other:?}"),
    }
    core.note_outcome(
        &open.ticket,
        "delayed",
        "mutate",
        observe_child_outcome(LateSighting::Returned),
        measures(),
    );
    core.coordinator.release(lease);
    open.ticket.finish(&mut core.request_registry);
    assert!(core.request_registry.active().is_empty());
    assert_eq!(core.telemetry.after(2).events.len(), 1);
}

#[test]
fn each_end_of_a_call_has_its_answer() {
    let mut core = gateway();
    let open = core.open_call("status", Some(2)).unwrap();
    let mut told = |end: CallEnd| match core.end_call("status", &open, &end, measures()) {
        None => "passed on".to_owned(),
        Some(ToolReply::Text(text)) => text,
        Some(ToolReply::Unknown(unknown)) => format!("unknown: {}", unknown.message),
        Some(other) => panic!("unexpected {other:?}"),
    };
    assert_eq!(told(CallEnd::NotAdmitted(AdmissionError::Saturated)), "Gateway request queue is full");
    assert_eq!(
        told(CallEnd::NotAdmitted(AdmissionError::Cancelled)),
        "Gateway request cancelled before dispatch"
    );
    assert_eq!(
        told(CallEnd::NotAdmitted(AdmissionError::Deadline)),
        "Gateway request expired before dispatch"
    );
    assert_eq!(
        told(CallEnd::NotAdmitted(AdmissionError::Draining)),
        "Gateway is draining; retry after lifecycle change completes"
    );
    assert_eq!(
        told(CallEnd::NotDispatched("eof".into())),
        "child MCP call could not be dispatched for 'status': eof"
    );
    assert_eq!(told(CallEnd::Answered(ChildResponse::Result)), "passed on");
    assert_eq!(
        told(CallEnd::Answered(ChildResponse::OtherResult)),
        "child MCP call returned an unexpected response type for 'status'"
    );
    assert_eq!(
        told(CallEnd::Answered(ChildResponse::TransportClosed)),
        "unknown: child MCP transport closed after dispatch for 'status'; outcome is unknown; do not automatically retry"
    );
    assert_eq!(
        told(CallEnd::Answered(ChildResponse::Cancelled(Some("why".into())))),
        "unknown: child MCP call was cancelled after dispatch for 'status': why; outcome is unknown; do not automatically retry"
    );
    assert_eq!(
        told(CallEnd::Answered(ChildResponse::Cancelled(None))),
        "unknown: child MCP call was cancelled after dispatch for 'status'; outcome is unknown; do not automatically retry"
    );
    assert_eq!(
        told(CallEnd::Answered(ChildResponse::Failed("bad".into()))),
        "child MCP call failed for 'status': bad"
    );
    assert_eq!(cancel_reason(WaitEnd::Cancelled, 1), "upstream gateway request cancelled");
    assert_eq!(observe_child_outcome(LateSighting::Failed), RequestOutcome::Failed);
    assert_eq!(observe_child_outcome(LateSighting::TransportClosed), RequestOutcome::Unknown);
    assert_eq!(observe_child_outcome(LateSighting::WindowExpired), RequestOutcome::Unknown);
}

#[test]
fn artifacts_are_read_under_a_policy_only() {
    let payload = Payload {
        request_bytes: 1,
        response_bytes: 1,
        text_preview_bytes: 1,
        structured_bytes: 1,
        binary_bytes: 50,
    };
    let limits = artifact::Limits {
        ttl: Span::from_secs(1),
        max_item_bytes: 40,
        max_total_bytes: 40,
    };
    let refused = |reply: Result<(usize, artifact::Limits), ToolReply>| match reply.unwrap_err() {
        ToolReply::Text(text) => text,
        other => panic!("unexpected {other:?}"),
    };
    assert_eq!(
        refused(plan_artifact_read(None, true, 9)),
        "artifact retrieval requires strict Gateway policy"
    );
    assert_eq!(
        refused(plan_artifact_read(Some((payload, limits)), false, 9)),
        "artifact persistence is disabled by Gateway policy"
    );
    let (count, held_to) = plan_artifact_read(Some((payload, limits)), true, 9).unwrap();
    assert_eq!((count, held_to.max_item_bytes), (9, limits.max_item_bytes));
    assert_eq!(plan_artifact_read(Some((payload, limits)), true, 99).unwrap().0, 40);
    let range = artifact::read_range(b"abcde", 0, 9, limits).unwrap();
    let page = artifact_page("id".into(), 0, Ok(range)).unwrap();
    assert_eq!(page.data, "YWJjZGU=");
    assert_eq!((page.encoding, page.total_bytes), ("base64", 5));
    assert_eq!(
        artifact_page("id".into(), 0, Err("gone".into())),
        Err(ToolReply::Text("artifact read failed: gone".into()))
    );
}

#[test]
fn control_socket_owns_drain_generation_and_lifecycle() {
    let mut core = gateway();
    let reply = |step: ControlStep| match step {
        ControlStep::Reply(response) => response,
        other => panic!("unexpected {other:?}"),
    };
    let status = reply(core.control_step(control(Action::Status)));
    assert!(status.ok);
    assert_eq!(status.state, "RUNNING");
    assert_eq!(status.drain_generation, 0);
    assert_eq!(status.catalog_generation, 1);
    assert_eq!(status.instance_id, "12-34");

    let mut drain = WireRequest {
        version: PROTOCOL_VERSION,
        action: Action::Drain,
        reason: None,
        drain_generation: None,
        after_sequence: None,
    };
    assert_eq!(accept_request(Some(drain)).unwrap_err().code, "invalid_request");
    drain.reason = Some(DrainReason::GatewayUpdate);
    let drain = accept_request(Some(drain)).unwrap();
    assert!(matches!(core.control_step(drain), ControlStep::Drain));
    assert_eq!(core.begin_drain(), 1);
    assert_eq!(core.begin_drain(), 1);
    assert!(!core.coordinator.is_accepting());
    core.settle_drain(core.coordinator.wait_idle(Waking::Notified) == Some(true));
    let drained = core.drain_response(true);
    assert!(drained.ok);
    assert_eq!(drained.state, "DRAINED");
    assert_eq!(drained.drain_generation, 1);

    for generation in [2, 0] {
        let mut stale = control(Action::Resume);
        stale.drain_generation = Some(generation);
        let refused = reply(core.control_step(stale));
        assert!(!refused.ok);
        assert_eq!(refused.error.unwrap().code, "stale_drain_generation");
        assert_eq!(refused.state, "DRAINED");
        assert_eq!(refused.drain_generation, 1);
        assert!(refused.history.is_none());
        assert!(!core.coordinator.is_accepting());
    }

    let mut resume = control(Action::Resume);
    resume.drain_generation = Some(1);
    let resumed = reply(core.control_step(resume));
    assert!(resumed.ok);
    assert_eq!(resumed.state, "RUNNING");
    assert_eq!(resumed.drain_generation, 1);
    assert!(resumed.history.is_none());
    assert!(core.coordinator.is_accepting());
    assert_eq!(core.resume(1), Err(StaleDrain));

    assert!(matches!(core.control_step(control(Action::Reload)), ControlStep::Reload));
    assert_eq!(core.reload_response(false).error.unwrap().code, "reload_failed");
    core.commit(Reload::new(Mode::LegacyCompat).finish(&vec![]).unwrap());
    let reloaded = core.reload_response(true);
    assert!(reloaded.ok);
    assert_eq!(reloaded.state, "RUNNING");
    assert_eq!(reloaded.catalog_generation, 2);
    let mut history = control(Action::History);
    history.after_sequence = Some(0);
    let told = reply(core.control_step(history)).history.unwrap();
    assert_eq!(told.events.len(), 2);
}

#[test]
fn drain_contract_carries_server_owned_generation() {
    let mut core = gateway();
    let generation = core.begin_drain();
    let response = core.drain_response(false);
    assert_eq!(response.state, "DRAINING");
    assert_eq!(response.drain_generation, generation);
    assert_eq!(response.error.unwrap().code, "drain_timeout");
    core.finish_lifecycle();
    assert_eq!(core.drain.phase, DrainPhase::Running);
    assert_eq!(core.begin_drain(), generation + 1);
    assert_eq!(
        DrainTimedOut.message(),
        "gateway drain timed out with dispatched requests still active"
    );
    assert_eq!(StaleDrain.message(), "drain generation does not match an active drain");
}

#[test]
fn servers_are_told_with_what_is_known_of_them() {
    let mut core = gateway();
    let mut closed = NameSet::new();
    closed.insert("git".into());
    let status = core.list_server_status(&closed);
    assert_eq!(status.servers.len(), 2);
    assert!(status.servers[0].running);
    assert!(!status.servers[1].running);
    assert_eq!(status.exposed_child_tools, 2);
    assert_eq!(status.gateway_tools.len(), 4);
    assert_eq!(status.policy_schema_version, None);
    assert_eq!(status.active_profile, None);
    assert!(status.admission_open);
    core.begin_drain();
    assert!(!core.list_server_status(&closed).admission_open);
}

fn closed(names: &[&str]) -> NameSet {
    let list: Vec<String> = names.iter().map(|name| (*name).into()).collect();
    NameSet::from_list(&list)
}

fn recovery_policy() -> Policy {
    Policy {
        max_attempts: 2,
        stability_window_ms: 30_000,
        initial_backoff_ms: 500,
        max_backoff_ms: 30_000,
        cooldown_ms: 60_000,
    }
}

#[test]
fn stopped_children_are_started_again_when_their_time_comes() {
    let mut core = gateway();
    assert!(!core.has_dead_restartable_child(&closed(&[])));
    assert!(core.has_dead_restartable_child(&closed(&["git"])));

    let mut child = core.state.children.get("git").unwrap().clone();
    child.recovery_policy = Some(recovery_policy());
    core.state.children.insert("git".into(), child);
    let stopped = closed(&["git"]);
    assert!(!core.has_dead_restartable_child_at(&stopped, 100));
    let child = core.state.children.get("git").unwrap();
    assert_eq!(child.recovery.state(), State::BackingOff);
    assert_eq!(child.recovery.retry_at_ms(), Some(600));
    assert!(!core.has_dead_restartable_child_at(&stopped, 599));
    assert!(core.has_dead_restartable_child_at(&stopped, 600));
    assert!(!core.has_dead_restartable_child_at(&stopped, 600));
    let seen = core.telemetry.after(1).events;
    assert_eq!(seen.len(), 1);
    assert_eq!(
        seen[0].observation,
        Observation::ChildRecovery {
            child: "git".into(),
            state: RecoveryState::Restarting,
            generation: 1,
        }
    );
    let sibling = core.state.children.get("delayed").unwrap();
    assert_eq!(sibling.recovery.state(), State::Healthy);
}

#[test]
fn a_look_ends_at_the_first_child_that_is_due() {
    let mut core = gateway();
    let mut later = core.state.children.get("git").unwrap().clone();
    later.recovery_policy = Some(recovery_policy());
    core.state.children.insert("git".into(), later);
    assert!(core.has_dead_restartable_child_at(&closed(&["delayed", "git"]), 9));
    assert_eq!(core.state.children.get("git").unwrap().recovery.state(), State::Healthy);

    let mut never = core.state.children.get("delayed").unwrap().clone();
    never.config.restart.policy = RestartPolicy::Never;
    core.state.children.insert("delayed".into(), never);
    assert!(!core.has_dead_restartable_child_at(&closed(&["delayed", "git"]), 9));
    assert_eq!(core.state.children.get("git").unwrap().recovery.state(), State::BackingOff);
}

#[test]
fn reloads_have_reasons_and_looks_have_bounds() {
    assert_eq!(reload_reason(true, true), Some("config changed and child stopped"));
    assert_eq!(reload_reason(true, false), Some("config changed"));
    assert_eq!(reload_reason(false, true), Some("child stopped"));
    assert_eq!(reload_reason(false, false), None);
    assert_eq!(watch_interval(1), Span::from_millis(250));
    assert_eq!(watch_interval(1_500), Span::from_millis(1_500));
    assert_eq!(watch_interval(u64::MAX), Span::from_millis(60_000));
}

#[test]
fn a_gateway_starts_empty() {
    let core = GatewayCore::new(Mode::LegacyCompat, 12);
    let (process, time) = core.instance_id.split_once('-').unwrap();
    assert_eq!(process, "12");
    assert!(time.parse::<u128>().unwrap() > 1_600_000_000_000);
    let Snapshot { tools, .. } = &core.state;
    assert!(tools.is_empty());
    assert_eq!((core.catalog_generation, core.profile_generation), (0, 1));
}

#[test]
fn only_passed_on_answers_are_measured() {
    let mut core = gateway();
    let open = core.open_call("status", Some(2)).unwrap();
    let measured = Measures {
        queue: Span::from_millis(3),
        execution: Span::from_millis(40),
        response_bytes: 7,
        guard: GuardAction::Passed,
    };
    let mut noted = |end: CallEnd| {
        core.end_call("status", &open, &end, measured);
        let batch = core.telemetry.after(0);
        match &batch.events.last().unwrap().observation {
            Observation::Request { queue_ms, execution_ms, response_bytes, guard, .. } => {
                (*queue_ms, *execution_ms, *response_bytes, *guard)
            }
            other => panic!("unexpected {other:?}"),
        }
    };
    assert_eq!(
        noted(CallEnd::Answered(ChildResponse::Result)),
        (3, 40, 7, GuardAction::Passed)
    );
    assert_eq!(
        noted(CallEnd::Answered(ChildResponse::TransportClosed)),
        (3, 40, 0, GuardAction::NotApplied)
    );
    assert_eq!(
        noted(CallEnd::NotAdmitted(AdmissionError::Draining)),
        (3, 0, 0, GuardAction::NotApplied)
    );
}

#[test]
fn lifecycle_changes_are_given_up_while_requests_run() {
    let mut core = gateway();
    core.begin_drain();
    assert_eq!(core.enter_lifecycle(false), Err(DrainTimedOut));
    assert_eq!(core.drain.phase, DrainPhase::Draining);
    assert!(!core.coordinator.is_accepting());
    assert_eq!(core.enter_lifecycle(true), Ok(()));
    assert_eq!(core.drain.phase, DrainPhase::Drained);
    core.finish_lifecycle();
    assert_eq!(core.drain.phase, DrainPhase::Running);
    assert!(core.coordinator.is_accepting());
}

#[test]
fn generations_start_anew_after_the_largest() {
    let mut core = gateway();
    core.catalog_generation = u64::MAX;
    core.profile_generation = u64::MAX;
    let reload = Reload::new(Mode::LegacyCompat);
    core.commit(reload.finish(&vec![]).unwrap());
    assert_eq!(core.catalog_generation, 0);
    assert_eq!(core.profile_generation, u64::MAX);
}
