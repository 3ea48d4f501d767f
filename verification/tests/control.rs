use rust_mcp_gateway::artifact::Kind;
use rust_mcp_gateway::control::{
    accept_request, check_socket_path, needs_directory, request_text, Action, BindError,
    DrainReason, WireRequest, MAX_REQUEST_BYTES, PROTOCOL_VERSION,
};

fn wire(action: Action) -> WireRequest {
    WireRequest {
        version: PROTOCOL_VERSION,
        action,
        reason: None,
        drain_generation: None,
        after_sequence: None,
    }
}

#[test]
fn rejects_unknown_fields_and_invalid_resume() {
    let request = wire(Action::Resume);
    assert!(matches!(request.action, Action::Resume));
    assert!(request.drain_generation.is_none());
    assert_eq!(accept_request(Some(request)).unwrap_err().code, "invalid_request");
}

#[test]
fn lines_are_framed() {
    assert_eq!(request_text(Some(&b"{}\n".to_vec())).unwrap(), b"{}");
    assert_eq!(request_text(Some(&b"\n".to_vec())).unwrap(), b"");
    assert_eq!(request_text(None).unwrap_err().code, "invalid_request");
    assert_eq!(request_text(Some(&vec![])).unwrap_err().code, "invalid_request");
    assert_eq!(request_text(Some(&b"{}".to_vec())).unwrap_err().code, "invalid_request");
    let mut longest = vec![b' '; MAX_REQUEST_BYTES - 1];
    longest.push(b'\n');
    assert!(request_text(Some(&longest)).is_ok());
    longest.insert(0, b' ');
    assert_eq!(request_text(Some(&longest)).unwrap_err().code, "invalid_request");
}

#[test]
fn fields_go_with_their_action() {
    let mut drain = wire(Action::Drain);
    assert!(accept_request(Some(drain)).is_err());
    drain.reason = Some(DrainReason::GatewayUpdate);
    assert_eq!(accept_request(Some(drain)).unwrap().action, Action::Drain);
    drain.after_sequence = Some(1);
    assert!(accept_request(Some(drain)).is_err());

    let mut resume = wire(Action::Resume);
    resume.drain_generation = Some(4);
    assert_eq!(accept_request(Some(resume)).unwrap().drain_generation, Some(4));
    resume.reason = Some(DrainReason::Operator);
    assert!(accept_request(Some(resume)).is_err());

    let mut history = wire(Action::History);
    history.after_sequence = Some(9);
    assert_eq!(accept_request(Some(history)).unwrap().after_sequence, Some(9));
    history.drain_generation = Some(1);
    assert!(accept_request(Some(history)).is_err());

    for action in [Action::Status, Action::Reload] {
        assert!(accept_request(Some(wire(action))).is_ok());
        let mut extra = wire(action);
        extra.after_sequence = Some(0);
        assert!(accept_request(Some(extra)).is_err());
        let mut extra = wire(action);
        extra.reason = Some(DrainReason::Reconciliation);
        assert!(accept_request(Some(extra)).is_err());
    }
}

#[test]
fn other_versions_are_told_apart_from_bad_requests() {
    let mut later = wire(Action::Drain);
    later.version = 2;
    assert_eq!(accept_request(Some(later)).unwrap_err().code, "unsupported_version");
    assert_eq!(accept_request(None).unwrap_err().code, "invalid_request");
}

#[test]
fn stale_socket_path_is_not_silently_reused() {
    assert_eq!(check_socket_path(Some(Kind::File)), Err(BindError::SocketExists));
    assert_eq!(check_socket_path(Some(Kind::Other)), Err(BindError::SocketExists));
    assert_eq!(check_socket_path(None), Ok(()));
    assert_eq!(
        BindError::SocketExists.message(),
        "gateway control socket path already exists"
    );
}

#[test]
fn the_socket_stands_in_a_directory_of_its_own() {
    assert_eq!(needs_directory(None), Ok(true));
    assert_eq!(needs_directory(Some(Kind::Directory)), Ok(false));
    assert_eq!(needs_directory(Some(Kind::Link)), Err(BindError::NotDirectDirectory));
    assert_eq!(
        BindError::NotDirectDirectory.message(),
        "gateway control path is not a direct directory"
    );
    assert_eq!(
        BindError::NoRuntimeParent.message(),
        "gateway config directory must have a runtime parent"
    );
}
