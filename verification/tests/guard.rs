use rmcp::model::{Annotations, CallToolResult, ContentBlock, ImageContent};
use rust_mcp_gateway::artifact;
use rust_mcp_gateway::encoding::base64_encode;
use rust_mcp_gateway::guard::{
    budget_violation, guard_child_response, judge, noted_response, preview_of,
    response_budget_violation, safe_text_preview, unreadable_reply, Held, Part, Verdict,
};
use rust_mcp_gateway::policy::Payload;
use rust_mcp_gateway::reply::ToolReply;
use rust_mcp_gateway::span::Span;
use rust_mcp_gateway::telemetry::GuardAction;
use serde_json::Value;

fn payload() -> Payload {
    Payload {
        request_bytes: 1,
        response_bytes: usize::MAX,
        text_preview_bytes: 3,
        structured_bytes: usize::MAX,
        binary_bytes: usize::MAX,
    }
}

fn artifacts() -> artifact::Limits {
    artifact::Limits { ttl: Span::from_secs(1), max_item_bytes: 1_000, max_total_bytes: 1_000 }
}

fn value_of(result: &CallToolResult) -> Vec<u8> {
    serde_json::to_vec(&serde_json::to_value(result).unwrap()).unwrap()
}

#[test]
fn response_guard_keeps_only_bounded_text_preview() {
    let result = CallToolResult::error(vec![ContentBlock::text("abcdef")]);
    let encoded = serde_json::to_vec(&result).unwrap();
    let value = value_of(&result);
    let limits = payload();
    assert_eq!(
        response_budget_violation(&encoded, Some(&value), &limits),
        Some(("text", 6, 3))
    );
    assert_eq!(safe_text_preview(Some(&value), 3).as_deref(), Some("abc"));
    assert_eq!(base64_encode(b"abcde"), "YWJjZGU=");
}

#[test]
fn limits_are_held_in_order() {
    let parts = vec![Part::Other(9), Part::Text("é".repeat(2)), Part::Other(11)];
    let limits = Payload {
        request_bytes: 1,
        response_bytes: 100,
        text_preview_bytes: 4,
        structured_bytes: 20,
        binary_bytes: 10,
    };
    assert_eq!(budget_violation(101, Some(21), &parts, &limits), Some(("response", 101, 100)));
    assert_eq!(budget_violation(100, Some(21), &parts, &limits), Some(("structured", 21, 20)));
    assert_eq!(budget_violation(100, Some(20), &parts, &limits), Some(("binary", 11, 10)));
    assert_eq!(budget_violation(100, None, &parts[..2].iter().map(copy).collect(), &limits), None);
    let tight = Payload { text_preview_bytes: 3, ..limits };
    assert_eq!(budget_violation(100, None, &parts, &tight), Some(("text", 4, 3)));
}

fn copy(part: &Part) -> Part {
    match part {
        Part::Text(text) => Part::Text(text.clone()),
        Part::Other(bytes) => Part::Other(*bytes),
    }
}

#[test]
fn previews_are_cut_at_characters() {
    let parts = vec![Part::Other(5), Part::Text("aé".into()), Part::Text("z".into())];
    assert_eq!(preview_of(&parts, 2).as_deref(), Some("a"));
    assert_eq!(preview_of(&parts, 3).as_deref(), Some("aé"));
    assert_eq!(preview_of(&vec![Part::Other(5)], 3), None);
}

#[test]
fn encoded_answers_are_read_by_their_parts() {
    let encoded = br#"{"content":[{"type":"image","data":"xyz"},{"type":"text","text":"hello"}],"structuredContent":{"a":[1,2]}}"#.to_vec();
    let open = Payload { text_preview_bytes: 5, ..payload() };
    assert_eq!(response_budget_violation(&encoded, Some(&encoded), &open), None);
    let tight = Payload { structured_bytes: 10, ..open };
    assert_eq!(response_budget_violation(&encoded, Some(&encoded), &tight), Some(("structured", 11, 10)));
    let tight = Payload { binary_bytes: 20, ..open };
    assert_eq!(response_budget_violation(&encoded, Some(&encoded), &tight), Some(("binary", 29, 20)));
    let spelled = br#"{"structured_content":"abc"}"#.to_vec();
    let tight = Payload { structured_bytes: 4, ..open };
    assert_eq!(response_budget_violation(&spelled, Some(&spelled), &tight), Some(("structured", 5, 4)));
    assert_eq!(safe_text_preview(Some(&encoded), 2).as_deref(), Some("he"));
    assert_eq!(safe_text_preview(Some(&b"not json".to_vec()), 2), None);
    assert_eq!(safe_text_preview(Some(&br#"{"content":"text"}"#.to_vec()), 2), None);
    assert_eq!(response_budget_violation(&b"[]".to_vec(), Some(&b"[]".to_vec()), &open), None);
}

#[test]
fn parts_are_measured_by_the_value_of_the_answer() {
    let marked = Annotations::default().with_priority(0.1);
    let image = ImageContent::new("QUI=", "image/png").with_annotations(marked);
    let result = CallToolResult::success(vec![ContentBlock::Image(image)]);
    let encoded = serde_json::to_vec(&result).unwrap();
    let value = value_of(&result);
    let sent = br#"{"type":"image","data":"QUI=","mimeType":"image/png","annotations":{"priority":0.1}}"#;
    let widened = sent.len() + "0.10000000149011612".len() - "0.1".len();
    assert_eq!(sent.len(), 84);
    assert_eq!(widened, 100);
    let wide = Payload { binary_bytes: 100, ..payload() };
    assert_eq!(response_budget_violation(&encoded, Some(&value), &wide), None);
    let tight = Payload { binary_bytes: 84, ..payload() };
    assert_eq!(
        response_budget_violation(&encoded, Some(&value), &tight),
        Some(("binary", 100, 84))
    );
    assert_eq!(response_budget_violation(&encoded, Some(&encoded), &tight), None);
}

#[test]
fn deeply_nested_answers_are_measured() {
    let mut nested = Value::Array(Vec::new());
    for _ in 1..200 {
        nested = Value::Array(vec![nested]);
    }
    let mut result = CallToolResult::success(vec![ContentBlock::text("deep")]);
    result.structured_content = Some(nested);
    let encoded = serde_json::to_vec(&result).unwrap();
    let value = value_of(&result);
    let open = Payload { text_preview_bytes: 4, ..payload() };
    assert_eq!(response_budget_violation(&encoded, Some(&value), &open), None);
    let tight = Payload { structured_bytes: 399, ..open };
    assert_eq!(
        response_budget_violation(&encoded, Some(&value), &tight),
        Some(("structured", 400, 399))
    );
    let tight = Payload { text_preview_bytes: 3, ..open };
    assert_eq!(
        response_budget_violation(&encoded, Some(&value), &tight),
        Some(("text", 4, 3))
    );
    assert_eq!(safe_text_preview(Some(&value), 3).as_deref(), Some("dee"));
}

#[test]
fn answers_without_a_value_are_held_to_their_size_alone() {
    let encoded = br#"{"content":[{"type":"text","text":"abcdef"}]}"#.to_vec();
    assert_eq!(response_budget_violation(&encoded, None, &payload()), None);
    let tight = Payload { response_bytes: 44, ..payload() };
    assert_eq!(response_budget_violation(&encoded, None, &tight), Some(("response", 45, 44)));
    assert_eq!(safe_text_preview(None, 3), None);
    assert_eq!(
        guard_child_response(Some((tight, artifacts())), true, Some(&encoded), None),
        Verdict::Hold(Held { violation: ("response", 45, 44), preview: None, keep: true })
    );
}

#[test]
fn answers_pass_are_held_or_cannot_be_read() {
    let encoded = br#"{"content":[{"text":"abcdef"}]}"#.to_vec();
    let size = encoded.len();
    assert_eq!(
        guard_child_response(None, true, Some(&encoded), Some(&encoded)),
        Verdict::Pass(size, GuardAction::NotApplied)
    );
    assert_eq!(
        guard_child_response(None, true, None, None),
        Verdict::Pass(0, GuardAction::NotApplied)
    );
    let limits = Some((payload(), artifacts()));
    assert_eq!(guard_child_response(limits, true, None, None), Verdict::Unreadable);
    assert_eq!(
        guard_child_response(limits, true, Some(&encoded), Some(&encoded)),
        Verdict::Hold(Held {
            violation: ("text", 6, 3),
            preview: Some("abc".into()),
            keep: true,
        })
    );
    let wide = Payload { text_preview_bytes: 6, ..payload() };
    assert_eq!(
        guard_child_response(Some((wide, artifacts())), true, Some(&encoded), Some(&encoded)),
        Verdict::Pass(size, GuardAction::Passed)
    );
}

#[test]
fn held_answers_are_noted_with_their_size() {
    let encoded = br#"{"content":[{"text":"abcdef"}]}"#.to_vec();
    let noted = |limits, encoded: Option<&Vec<u8>>| {
        noted_response(&guard_child_response(limits, true, encoded, encoded), encoded)
    };
    let limits = Some((payload(), artifacts()));
    assert_eq!(noted(limits, Some(&encoded)), (31, GuardAction::Guarded));
    assert_eq!(noted(limits, None), (0, GuardAction::NotApplied));
    assert_eq!(noted(None, Some(&encoded)), (31, GuardAction::NotApplied));
    assert_eq!(noted(None, None), (0, GuardAction::NotApplied));
    let wide = Payload { text_preview_bytes: 6, ..payload() };
    assert_eq!(noted(Some((wide, artifacts())), Some(&encoded)), (31, GuardAction::Passed));
}

#[test]
fn artifacts_are_kept_where_they_fit_and_are_wanted() {
    let limits = Some((payload(), artifacts()));
    let kept = |enabled, bytes| match judge(limits, enabled, Some(bytes), Some(("text", 6, 3)), None) {
        Verdict::Hold(held) => held.keep,
        other => panic!("unexpected {other:?}"),
    };
    assert!(kept(true, 1_000));
    assert!(!kept(true, 1_001));
    assert!(!kept(false, 1));
}

#[test]
fn answers_that_cannot_be_encoded_are_told_so() {
    assert_eq!(
        unreadable_reply(),
        ToolReply::Text("Gateway cannot encode child response".into())
    );
}
