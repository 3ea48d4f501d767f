use rust_mcp_gateway::progress::{
    truncate, Relay, Token, MAX_ACTIVE_PROGRESS, MAX_PROGRESS_MESSAGE_BYTES,
};

#[test]
fn generated_child_token_is_distinct_and_drop_removes_mapping() {
    let mut relay = Relay::new();
    let upstream = Token::Text("client-token".into());
    let lease = relay.register(upstream).unwrap();
    assert_ne!(lease.child_token(), Token::Text("client-token".into()));
    assert_eq!(relay.len(), 1);
    lease.release(&mut relay);
    assert!(relay.is_empty());
}

#[test]
fn progress_message_is_bounded_without_changing_utf8() {
    let message = "é".repeat(200);
    let bounded = truncate(&message);
    assert!(bounded.len() <= MAX_PROGRESS_MESSAGE_BYTES);
    assert!(bounded.is_char_boundary(bounded.len()));
    assert_eq!(bounded, "é".repeat(128));
}

#[test]
fn reports_reach_the_client_under_its_own_token() {
    let mut relay = Relay::new();
    let lease = relay.register(Token::Number(7)).unwrap();
    let report = relay.forward(&lease.child_token(), Some("a".repeat(300))).unwrap();
    assert_eq!(report.token, Token::Number(7));
    assert_eq!(report.message, Some("a".repeat(256)));
    let silent = relay.forward(&lease.child_token(), None).unwrap();
    assert_eq!(silent.message, None);
    assert!(relay.forward(&Token::Number(7), None).is_none());
    assert!(relay.forward(&Token::Text("gateway-".into()), None).is_none());
    let token = lease.child_token();
    lease.release(&mut relay);
    assert!(relay.forward(&token, None).is_none());
}

#[test]
fn child_tokens_carry_an_identifier() {
    let mut relay = Relay::new();
    let lease = relay.register_as("42", Token::Number(1)).unwrap();
    assert_eq!(lease.child_token(), Token::Text("gateway-42".into()));
    let other = relay.register(Token::Number(2)).unwrap();
    match other.child_token() {
        Token::Text(text) => {
            assert!(uuid::Uuid::parse_str(text.strip_prefix("gateway-").unwrap()).is_ok())
        }
        Token::Number(_) => panic!("a number"),
    }
}

#[test]
fn the_relay_is_bounded() {
    let mut relay = Relay::new();
    for n in 0..MAX_ACTIVE_PROGRESS {
        assert!(relay.register_as(&format!("{n}"), Token::Number(0)).is_some());
    }
    assert!(relay.register(Token::Number(0)).is_none());
    assert_eq!(relay.len(), MAX_ACTIVE_PROGRESS);
}
