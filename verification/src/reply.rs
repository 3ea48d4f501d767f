//! What the gateway itself answers to a call.
use crate::artifact::Stored;
use crate::guard::Violation;
use vstd::prelude::*;

verus! {

pub const GUIDANCE: &'static str =
    "Narrow the requested path, range, query, or result set before issuing a new request.";

/// The call went to the child, and what came of it is not known.
#[derive(Debug, PartialEq, Eq)]
pub struct UnknownOutcome {
    pub code: &'static str,
    pub message: String,
    pub retryable: bool,
    pub outcome: &'static str,
    pub gateway_request_id: Option<String>,
}

/// Something was larger than the policy allows.
#[derive(Debug, PartialEq, Eq)]
pub struct PayloadTooLarge {
    pub code: &'static str,
    pub kind: &'static str,
    pub actual_bytes: usize,
    pub limit_bytes: usize,
    pub retryable: bool,
    pub guidance: &'static str,
}

/// What is told of the artifact that holds a whole answer.
#[derive(Debug, PartialEq, Eq)]
pub enum ArtifactNote {
    Kept(Stored),
    Unavailable(String),
}

/// The account that stands in place of an answer that was larger than the policy allows.
#[derive(Debug, PartialEq, Eq)]
pub struct ResponseGuarded {
    pub code: &'static str,
    pub kind: &'static str,
    pub actual_bytes: usize,
    pub limit_bytes: usize,
    pub retryable: bool,
    pub guidance: &'static str,
    pub preview: Option<String>,
    pub artifact: Option<ArtifactNote>,
}

/// An answer of the gateway's own. Each of them reports an error.
#[derive(Debug, PartialEq, Eq)]
pub enum ToolReply {
    Text(String),
    Unknown(UnknownOutcome),
    TooLarge(PayloadTooLarge),
    Guarded(ResponseGuarded),
}

pub open spec fn says(reply: ToolReply, message: Seq<char>) -> bool {
    reply matches ToolReply::Text(text) && text@ == message
}

/// The outcome is unknown, the call is not to be repeated, and this is what is said of it.
pub open spec fn says_unknown(
    reply: UnknownOutcome,
    message: Seq<char>,
    id: Option<Seq<char>>,
) -> bool {
    &&& reply.code@ == "child_outcome_unknown"@
    &&& reply.message@ == message
    &&& !reply.retryable
    &&& reply.outcome@ == "unknown"@
    &&& crate::config::optional_text(reply.gateway_request_id) == id
}

/// This was too large, by how much, and what to do about it.
pub open spec fn says_too_large(
    reply: PayloadTooLarge,
    kind: Seq<char>,
    actual: usize,
    limit: usize,
) -> bool {
    &&& reply.code@ == "payload_too_large"@
    &&& reply.kind@ == kind
    &&& reply.actual_bytes == actual
    &&& reply.limit_bytes == limit
    &&& !reply.retryable
    &&& reply.guidance@ == GUIDANCE@
}

pub fn tool_error(message: String) -> (r: ToolReply)
    ensures
        says(r, message@),
{
    ToolReply::Text(message)
}

pub fn tool_unknown_outcome(message: String) -> (r: UnknownOutcome)
    ensures
        says_unknown(r, message@, None),
{
    UnknownOutcome {
        code: "child_outcome_unknown",
        message,
        retryable: false,
        outcome: "unknown",
        gateway_request_id: None,
    }
}

/// The identifier lets the caller find the request again.
pub fn tool_unknown_outcome_with_correlation(message: String, gateway_request_id: String) -> (r:
    UnknownOutcome)
    ensures
        says_unknown(r, message@, Some(gateway_request_id@)),
{
    let mut result = tool_unknown_outcome(message);
    result.gateway_request_id = Some(gateway_request_id);
    result
}

pub fn tool_payload_too_large(kind: &'static str, actual: usize, limit: usize) -> (r:
    PayloadTooLarge)
    ensures
        says_too_large(r, kind@, actual, limit),
{
    PayloadTooLarge {
        code: "payload_too_large",
        kind,
        actual_bytes: actual,
        limit_bytes: limit,
        retryable: false,
        guidance: GUIDANCE,
    }
}

pub fn tool_response_guard(
    violation: Violation,
    preview: Option<String>,
    artifact: Option<ArtifactNote>,
) -> (r: ResponseGuarded)
    ensures
        r.code@ == "response_guarded"@,
        r.kind == violation.0,
        r.actual_bytes == violation.1,
        r.limit_bytes == violation.2,
        !r.retryable,
        r.guidance@ == GUIDANCE@,
        r.preview == preview,
        r.artifact == artifact,
{
    ResponseGuarded {
        code: "response_guarded",
        kind: violation.0,
        actual_bytes: violation.1,
        limit_bytes: violation.2,
        retryable: false,
        guidance: GUIDANCE,
        preview,
        artifact,
    }
}

/// A reply that says something is a text and holds just that.
pub proof fn law_texts_say_what_they_hold(reply: ToolReply, message: Seq<char>)
    ensures
        says(reply, message) <==> (reply matches ToolReply::Text(text) && text@ == message),
{
}

/// An answer on an unknown outcome is marked as such and as not to be repeated, holds the message, and gives an
/// identifier exactly if there is one to give.
pub proof fn law_unknown_outcomes_are_marked(
    reply: UnknownOutcome,
    message: Seq<char>,
    id: Option<Seq<char>>,
)
    requires
        says_unknown(reply, message, id),
    ensures
        reply.code@ == "child_outcome_unknown"@,
        reply.outcome@ == "unknown"@,
        reply.message@ == message,
        !reply.retryable,
        match reply.gateway_request_id {
            None => id is None,
            Some(told) => id == Some(told@),
        },
{
}

/// An answer on something too large gives its kind, its size and the limit, and advice in place of a repetition.
pub proof fn law_what_is_too_large_is_told_with_its_size(
    reply: PayloadTooLarge,
    kind: Seq<char>,
    actual: usize,
    limit: usize,
)
    requires
        says_too_large(reply, kind, actual, limit),
    ensures
        reply.code@ == "payload_too_large"@,
        reply.kind@ == kind,
        reply.actual_bytes == actual,
        reply.limit_bytes == limit,
        !reply.retryable,
        reply.guidance@
            == "Narrow the requested path, range, query, or result set before issuing a new request."@,
{
}

} // verus!
