//! The course of a call: where it goes, why it is refused, and what is answered.
use crate::artifact;
use crate::artifact::ReadRange;
use crate::catalog::{builtin_name, Catalog, Snapshot, TOOL_LIST_SERVERS, TOOL_READ_ARTIFACT, TOOL_RELOAD, TOOL_SET_ENABLED};
use crate::encoding::{base64, base64_encode};
use crate::policy::{limits_of, policy_in, request_budget, route_limits, Mode, Payload};
use crate::reply::{says, says_too_large, says_unknown, tool_error, tool_payload_too_large, tool_unknown_outcome, tool_unknown_outcome_with_correlation, ToolReply};
use crate::request::{AdmissionError, RequestSpec};
use crate::telemetry::RequestOutcome;
use crate::text::{decimal, glue, same, to_decimal};
use vstd::prelude::*;

verus! {

/// How many seconds the outcome of a call is watched for after its caller has stopped waiting.
pub const OUTCOME_OBSERVATION_SECONDS: u64 = 30;

/// Whose tool is called.
#[derive(Debug, Clone, Copy, PartialEq, Eq, Structural)]
pub enum Called {
    ListServers,
    Reload,
    SetEnabled,
    ReadArtifact,
    Child,
}

/// The gateway's own tools go before those of the children.
pub fn called_tool(name: &str) -> (r: Called)
    ensures
        r == if name@ == TOOL_LIST_SERVERS@ {
            Called::ListServers
        } else if name@ == TOOL_RELOAD@ {
            Called::Reload
        } else if name@ == TOOL_SET_ENABLED@ {
            Called::SetEnabled
        } else if name@ == TOOL_READ_ARTIFACT@ {
            Called::ReadArtifact
        } else {
            Called::Child
        },
        r == Called::Child <==> !builtin_name(name@),
{
    if same(name, TOOL_LIST_SERVERS) {
        Called::ListServers
    } else if same(name, TOOL_RELOAD) {
        Called::Reload
    } else if same(name, TOOL_SET_ENABLED) {
        Called::SetEnabled
    } else if same(name, TOOL_READ_ARTIFACT) {
        Called::ReadArtifact
    } else {
        Called::Child
    }
}

/// A call that has a place to go: the child, its name for the tool, how long it may take, and what is asked of
/// admission.
#[derive(Debug)]
pub struct RoutedCall {
    pub child: String,
    pub original_name: String,
    pub timeout_ms: u64,
    pub spec: RequestSpec,
}

/// Why a call goes nowhere.
#[derive(Debug)]
pub enum Refusal {
    /// It is answered by a reply.
    Reply(ToolReply),
    /// It is answered by an error of the protocol: its parameters are invalid.
    InvalidParams(String),
}

/// Why a call that takes so many bytes goes nowhere, in the order in which that is found out.
pub enum Obstacle {
    Unencodable,
    TooLarge(usize, usize),
    UnknownTool(Seq<char>),
    NotRunning(Seq<char>),
    NotAllowed,
}

pub open spec fn budget_of(mode: Mode) -> usize {
    match policy_in(mode) {
        None => usize::MAX,
        Some(config) => config.payload.request_bytes,
    }
}

pub open spec fn obstacle(
    mode: Mode,
    catalog: Catalog,
    name: Seq<char>,
    request_bytes: Option<usize>,
) -> Option<Obstacle> {
    match request_bytes {
        None => Some(Obstacle::Unencodable),
        Some(bytes) => if bytes > budget_of(mode) {
            Some(Obstacle::TooLarge(bytes, budget_of(mode)))
        } else if !catalog.routes.contains_key(name) {
            Some(Obstacle::UnknownTool(name))
        } else if !catalog.children.contains_key(catalog.routes[name].child) {
            Some(Obstacle::NotRunning(catalog.routes[name].child))
        } else if limits_of(
            mode,
            catalog.routes[name].child,
            catalog.routes[name].original_name,
        ) is None {
            Some(Obstacle::NotAllowed)
        } else {
            None
        },
    }
}

/// How an obstacle is answered.
pub open spec fn answers(refusal: Refusal, obstacle: Obstacle) -> bool {
    match obstacle {
        Obstacle::Unencodable => refusal matches Refusal::Reply(reply) && says(
            reply,
            "Gateway cannot encode tool arguments"@,
        ),
        Obstacle::TooLarge(actual, limit) => refusal matches Refusal::Reply(reply)
            && reply matches ToolReply::TooLarge(large) && says_too_large(
            large,
            "request"@,
            actual,
            limit,
        ),
        Obstacle::UnknownTool(name) => refusal matches Refusal::InvalidParams(message) && message@
            == "unknown tool '"@ + name + "'"@,
        Obstacle::NotRunning(child) => refusal matches Refusal::InvalidParams(message) && message@
            == "child MCP '"@ + child + "' is not running"@,
        Obstacle::NotAllowed => refusal matches Refusal::Reply(reply) && says(
            reply,
            "tool is not allowed by active Gateway profile"@,
        ),
    }
}

/// Where a call goes under the catalog and the policy, or why it goes nowhere. `request_bytes` is the size of its
/// encoded arguments, if they can be encoded.
pub fn route_call(mode: &Mode, state: &Snapshot, name: &str, request_bytes: Option<usize>) -> (r: Result<
    RoutedCall,
    Refusal,
>)
    ensures
        match obstacle(*mode, state@, name@, request_bytes) {
            Some(found) => r matches Err(refusal) && answers(refusal, found),
            None => {
                let route = state@.routes[name@];
                let limits = limits_of(*mode, route.child, route.original_name)->0;
                r matches Ok(call) && call.child@ == route.child && call.original_name@
                    == route.original_name && call.timeout_ms
                    == state@.children[route.child].config.timeout_ms && call.spec.child@
                    == route.child && call.spec.tool@ == route.child + ":"@ + route.original_name
                    && call.spec.child_limit == limits.0 && call.spec.tool_limit == limits.1
            },
        },
{
    let bytes: usize = match request_bytes {
        None => {
            return Err(
                Refusal::Reply(tool_error("Gateway cannot encode tool arguments".to_owned())),
            );
        },
        Some(bytes) => bytes,
    };
    let budget: usize = request_budget(mode);
    if bytes > budget {
        return Err(
            Refusal::Reply(ToolReply::TooLarge(tool_payload_too_large("request", bytes, budget))),
        );
    }
    let route = match state.routes.get(name) {
        None => {
            return Err(Refusal::InvalidParams(glue(&glue("unknown tool '", name), "'")));
        },
        Some(route) => route,
    };
    assert(state@.routes[name@] == route@);
    let child = match state.children.get(&route.child) {
        None => {
            return Err(
                Refusal::InvalidParams(
                    glue(&glue("child MCP '", &route.child), "' is not running"),
                ),
            );
        },
        Some(child) => child,
    };
    assert(state@.children[route@.child] == child@);
    match route_limits(mode, &route.child, &route.original_name) {
        None => Err(
            Refusal::Reply(
                tool_error("tool is not allowed by active Gateway profile".to_owned()),
            ),
        ),
        Some((child_limit, tool_limit)) => {
            let tool = glue(&glue(&route.child, ":"), &route.original_name);
            Ok(
                RoutedCall {
                    child: route.child.clone(),
                    original_name: route.original_name.clone(),
                    timeout_ms: child.config.timeout_ms,
                    spec: RequestSpec { child: route.child.clone(), child_limit, tool, tool_limit },
                },
            )
        },
    }
}

/// The answer where no more requests can be entered.
pub fn registry_full() -> (r: ToolReply)
    ensures
        says(r, "Gateway active request registry is full"@),
{
    tool_error("Gateway active request registry is full".to_owned())
}

pub open spec fn admission_text(error: AdmissionError) -> Seq<char> {
    match error {
        AdmissionError::Saturated => "Gateway request queue is full"@,
        AdmissionError::Cancelled => "Gateway request cancelled before dispatch"@,
        AdmissionError::Deadline => "Gateway request expired before dispatch"@,
        AdmissionError::Draining =>
            "Gateway is draining; retry after lifecycle change completes"@,
    }
}

fn admission_refused(error: AdmissionError) -> (r: ToolReply)
    ensures
        says(r, admission_text(error)),
{
    match error {
        AdmissionError::Saturated => tool_error("Gateway request queue is full".to_owned()),
        AdmissionError::Cancelled => tool_error(
            "Gateway request cancelled before dispatch".to_owned(),
        ),
        AdmissionError::Deadline => tool_error(
            "Gateway request expired before dispatch".to_owned(),
        ),
        AdmissionError::Draining => tool_error(
            "Gateway is draining; retry after lifecycle change completes".to_owned(),
        ),
    }
}

/// Why the gateway does not wait for a child any more.
#[derive(Debug, Clone, Copy, PartialEq, Eq, Structural)]
pub enum WaitEnd {
    Cancelled,
    TimedOut,
}

/// The reason that the child is given.
pub fn cancel_reason(end: WaitEnd, timeout_ms: u64) -> (r: String)
    ensures
        r@ == match end {
            WaitEnd::Cancelled => "upstream gateway request cancelled"@,
            WaitEnd::TimedOut => "gateway child timeout after "@ + decimal(timeout_ms as nat)
                + " ms"@,
        },
{
    match end {
        WaitEnd::Cancelled => "upstream gateway request cancelled".to_owned(),
        WaitEnd::TimedOut => glue(
            &glue("gateway child timeout after ", &to_decimal(timeout_ms as u128)),
            " ms",
        ),
    }
}

/// How a child answered a call.
#[derive(Debug)]
pub enum ChildResponse {
    Result,
    OtherResult,
    TransportClosed,
    Cancelled(Option<String>),
    Failed(String),
}

/// How a call ended, as far as the client is concerned.
#[derive(Debug)]
pub enum CallEnd {
    NotAdmitted(AdmissionError),
    /// The child could not be given the call.
    NotDispatched(String),
    /// The gateway does not wait any more; how the notice to the child went.
    WaitEnded(String),
    Answered(ChildResponse),
}

/// What is noted of the end of a call.
pub open spec fn outcome_of(end: CallEnd) -> RequestOutcome {
    match end {
        CallEnd::NotAdmitted(_) | CallEnd::NotDispatched(_) => RequestOutcome::Failed,
        CallEnd::WaitEnded(_) => RequestOutcome::Unknown,
        CallEnd::Answered(response) => match response {
            ChildResponse::Result => RequestOutcome::Returned,
            ChildResponse::OtherResult | ChildResponse::Failed(_) => RequestOutcome::Failed,
            ChildResponse::TransportClosed | ChildResponse::Cancelled(_) =>
                RequestOutcome::Unknown,
        },
    }
}

/// What is said to the client of the end of a call where the child's answer is not passed on.
pub open spec fn end_text(end: CallEnd, name: Seq<char>) -> Seq<char> {
    match end {
        CallEnd::NotAdmitted(error) => admission_text(error),
        CallEnd::NotDispatched(error) => "child MCP call could not be dispatched for '"@ + name
            + "': "@ + error@,
        CallEnd::WaitEnded(cancel_error) =>
            "child MCP call ended upstream wait after dispatch for '"@ + name
            + "'; outcome is pending; do not automatically retry; cancel_error="@ + cancel_error@,
        CallEnd::Answered(response) => match response {
            ChildResponse::Result => Seq::empty(),
            ChildResponse::OtherResult =>
                "child MCP call returned an unexpected response type for '"@ + name + "'"@,
            ChildResponse::TransportClosed => "child MCP transport closed after dispatch for '"@
                + name + "'; outcome is unknown; do not automatically retry"@,
            ChildResponse::Cancelled(reason) =>
                "child MCP call was cancelled after dispatch for '"@ + name + "'"@ + (match reason {
                None => Seq::empty(),
                Some(reason) => ": "@ + reason@,
            }) + "; outcome is unknown; do not automatically retry"@,
            ChildResponse::Failed(error) => "child MCP call failed for '"@ + name + "': "@ + error@,
        },
    }
}

/// How the client is answered: nothing of the gateway's own where the child's answer is passed on; an error that must
/// not be repeated where the outcome is unknown, with the request's identifier where it may still become known; a plain
/// error otherwise.
pub open spec fn is_answer(
    reply: Option<ToolReply>,
    end: CallEnd,
    name: Seq<char>,
    request_id: Seq<char>,
) -> bool {
    if end == CallEnd::Answered(ChildResponse::Result) {
        reply is None
    } else if outcome_of(end) == RequestOutcome::Unknown {
        reply matches Some(ToolReply::Unknown(unknown)) && says_unknown(
            unknown,
            end_text(end, name),
            if end is WaitEnded {
                Some(request_id)
            } else {
                None
            },
        )
    } else {
        reply matches Some(text) && says(text, end_text(end, name))
    }
}

fn settle(name: &str, response: &ChildResponse) -> (r: (RequestOutcome, Option<ToolReply>))
    ensures
        r.0 == outcome_of(CallEnd::Answered(*response)),
        forall|request_id: Seq<char>| #[trigger]
            is_answer(r.1, CallEnd::Answered(*response), name@, request_id),
{
    match response {
        ChildResponse::Result => (RequestOutcome::Returned, None),
        ChildResponse::OtherResult => {
            let message = glue(
                &glue("child MCP call returned an unexpected response type for '", name),
                "'",
            );
            (RequestOutcome::Failed, Some(tool_error(message)))
        },
        ChildResponse::TransportClosed => {
            let message = glue(
                &glue("child MCP transport closed after dispatch for '", name),
                "'; outcome is unknown; do not automatically retry",
            );
            (RequestOutcome::Unknown, Some(ToolReply::Unknown(tool_unknown_outcome(message))))
        },
        ChildResponse::Cancelled(reason) => {
            let head = glue(
                &glue("child MCP call was cancelled after dispatch for '", name),
                "'",
            );
            let told = match reason {
                None => head,
                Some(reason) => glue(&head, &glue(": ", reason)),
            };
            let message = glue(&told, "; outcome is unknown; do not automatically retry");
            assert(message@ =~= end_text(CallEnd::Answered(*response), name@));
            (RequestOutcome::Unknown, Some(ToolReply::Unknown(tool_unknown_outcome(message))))
        },
        ChildResponse::Failed(error) => {
            let message = glue(&glue(&glue("child MCP call failed for '", name), "': "), error);
            (RequestOutcome::Failed, Some(tool_error(message)))
        },
    }
}

/// What is noted of the end of a call, and how the client is answered.
pub fn conclude(name: &str, end: &CallEnd, request_id: &str) -> (r: (
    RequestOutcome,
    Option<ToolReply>,
))
    ensures
        r.0 == outcome_of(*end),
        is_answer(r.1, *end, name@, request_id@),
{
    match end {
        CallEnd::NotAdmitted(error) => (
            RequestOutcome::Failed,
            Some(admission_refused(*error)),
        ),
        CallEnd::NotDispatched(error) => {
            let message = glue(
                &glue(&glue("child MCP call could not be dispatched for '", name), "': "),
                error,
            );
            (RequestOutcome::Failed, Some(tool_error(message)))
        },
        CallEnd::WaitEnded(cancel_error) => {
            let message = glue(
                &glue(
                    &glue("child MCP call ended upstream wait after dispatch for '", name),
                    "'; outcome is pending; do not automatically retry; cancel_error=",
                ),
                cancel_error,
            );
            (
                RequestOutcome::Unknown,
                Some(
                    ToolReply::Unknown(
                        tool_unknown_outcome_with_correlation(message, request_id.to_owned()),
                    ),
                ),
            )
        },
        CallEnd::Answered(response) => {
            let settled = settle(name, response);
            assert(is_answer(settled.1, *end, name@, request_id@));
            settled
        },
    }
}

/// A call whose outcome is unknown is answered so, and is not to be repeated: not where the child fell silent, was
/// cancelled or took too long.
pub proof fn law_unknown_outcomes_are_never_retryable(
    reply: Option<ToolReply>,
    end: CallEnd,
    name: Seq<char>,
    request_id: Seq<char>,
)
    requires
        is_answer(reply, end, name, request_id),
        outcome_of(end) == RequestOutcome::Unknown,
    ensures
        reply matches Some(ToolReply::Unknown(unknown)) && !unknown.retryable && unknown.outcome@
            == "unknown"@ && unknown.code@ == "child_outcome_unknown"@,
{
}

/// What was seen of a call after the gateway had stopped waiting for it.
#[derive(Debug, Clone, Copy, PartialEq, Eq, Structural)]
pub enum LateSighting {
    Returned,
    Failed,
    TransportClosed,
    WindowExpired,
}

/// What is noted of a call after the gateway had stopped waiting for it.
pub fn observe_child_outcome(seen: LateSighting) -> (r: RequestOutcome)
    ensures
        r == match seen {
            LateSighting::Returned => RequestOutcome::Returned,
            LateSighting::Failed => RequestOutcome::Failed,
            LateSighting::TransportClosed | LateSighting::WindowExpired => RequestOutcome::Unknown,
        },
{
    match seen {
        LateSighting::Returned => RequestOutcome::Returned,
        LateSighting::Failed => RequestOutcome::Failed,
        LateSighting::TransportClosed | LateSighting::WindowExpired => RequestOutcome::Unknown,
    }
}

/// The most bytes that a read of an artifact hands out, and the limits that it is held to, or why there is none.
pub fn plan_artifact_read(
    limits: Option<(Payload, artifact::Limits)>,
    artifact_enabled: bool,
    max_bytes: usize,
) -> (r: Result<(usize, artifact::Limits), ToolReply>)
    ensures
        match limits {
            None => r matches Err(reply) && says(
                reply,
                "artifact retrieval requires strict Gateway policy"@,
            ),
            Some((payload, artifacts)) => if !artifact_enabled {
                r matches Err(reply) && says(
                    reply,
                    "artifact persistence is disabled by Gateway policy"@,
                )
            } else {
                r matches Ok((count, held_to)) && held_to == artifacts && count <= max_bytes && count <= payload.binary_bytes && count
                    <= artifacts.max_item_bytes && (count == max_bytes || count
                    == payload.binary_bytes || count == artifacts.max_item_bytes)
            },
        },
{
    match limits {
        None => Err(tool_error("artifact retrieval requires strict Gateway policy".to_owned())),
        Some((payload, artifacts)) => {
            if !artifact_enabled {
                return Err(
                    tool_error("artifact persistence is disabled by Gateway policy".to_owned()),
                );
            }
            let mut count: usize = max_bytes;
            if payload.binary_bytes < count {
                count = payload.binary_bytes;
            }
            if artifacts.max_item_bytes < count {
                count = artifacts.max_item_bytes;
            }
            Ok((count, artifacts))
        },
    }
}

/// A part of an artifact as it is handed out.
#[derive(Debug, PartialEq, Eq)]
pub struct ArtifactPage {
    pub id: String,
    pub offset: usize,
    pub total_bytes: usize,
    pub sha256: String,
    pub encoding: &'static str,
    pub data: String,
}

/// The part of an artifact that was read, or why it was not read, as an answer.
pub fn artifact_page(id: String, offset: usize, read: Result<ReadRange, String>) -> (r: Result<
    ArtifactPage,
    ToolReply,
>)
    ensures
        match read {
            Ok(range) => r matches Ok(page) && page.id == id && page.offset == offset
                && page.total_bytes == range.total_bytes && page.sha256 == range.sha256
                && page.encoding@ == "base64"@ && page.data@ == base64(range.bytes@),
            Err(error) => r matches Err(reply) && says(reply, "artifact read failed: "@ + error@),
        },
{
    match read {
        Ok(range) => Ok(
            ArtifactPage {
                id,
                offset,
                total_bytes: range.total_bytes,
                sha256: range.sha256,
                encoding: "base64",
                data: base64_encode(&range.bytes),
            },
        ),
        Err(error) => Err(tool_error(glue("artifact read failed: ", &error))),
    }
}

/// A call reaches a child only if the policy permits the tool, and never in place of one of the gateway's own tools
/// where the catalog is sound.
pub proof fn law_only_permitted_tools_are_called(
    mode: Mode,
    catalog: Catalog,
    name: Seq<char>,
    request_bytes: Option<usize>,
)
    requires
        crate::catalog_laws::sound(catalog),
        obstacle(mode, catalog, name, request_bytes) is None,
    ensures
        crate::policy::permits(
            mode,
            catalog.routes[name].child,
            catalog.routes[name].original_name,
        ),
        !builtin_name(name),
{
    if builtin_name(name) {
        crate::catalog_laws::law_own_tools_are_never_shadowed(catalog, name);
    }
}

/// In a sound catalog a call of a known tool never fails because its child is not running.
pub proof fn law_known_tools_have_a_running_child(
    mode: Mode,
    catalog: Catalog,
    name: Seq<char>,
    request_bytes: Option<usize>,
)
    requires
        crate::catalog_laws::sound(catalog),
    ensures
        !(obstacle(mode, catalog, name, request_bytes) matches Some(found) && found is NotRunning),
{
    if catalog.routes.contains_key(name) {
        crate::catalog_laws::law_routes_lead_to_running_children(catalog, name);
    }
}

/// A call finds its way exactly if its arguments can be encoded and are no larger than the policy allows, if there is
/// one, its tool is known, the child that the route leads to runs, and the tool has limits under the policy.
pub proof fn law_calls_within_the_rules_find_their_way(
    mode: Mode,
    catalog: Catalog,
    name: Seq<char>,
    request_bytes: Option<usize>,
)
    ensures
        obstacle(mode, catalog, name, request_bytes) is None <==> {
            &&& request_bytes is Some
            &&& mode matches Mode::Strict(config) ==> request_bytes->0
                <= config.payload.request_bytes
            &&& catalog.routes.contains_key(name)
            &&& catalog.children.contains_key(catalog.routes[name].child)
            &&& limits_of(
                mode,
                catalog.routes[name].child,
                catalog.routes[name].original_name,
            ) is Some
        },
{
}

/// Of several obstacles the first is told: that the arguments cannot be encoded; that they are too large, with their
/// size and the limit; that the tool is unknown; that its child does not run; that the policy does not allow it.
pub proof fn law_the_first_obstacle_is_told(
    mode: Mode,
    catalog: Catalog,
    name: Seq<char>,
    request_bytes: Option<usize>,
)
    ensures
        match obstacle(mode, catalog, name, request_bytes) {
            None => true,
            Some(Obstacle::Unencodable) => request_bytes is None,
            Some(Obstacle::TooLarge(actual, limit)) => {
                &&& request_bytes == Some(actual)
                &&& mode matches Mode::Strict(config) && limit == config.payload.request_bytes
                &&& actual > limit
            },
            Some(Obstacle::UnknownTool(told)) => {
                &&& request_bytes is Some
                &&& mode matches Mode::Strict(config) ==> request_bytes->0
                    <= config.payload.request_bytes
                &&& told == name
                &&& !catalog.routes.contains_key(name)
            },
            Some(Obstacle::NotRunning(child)) => {
                &&& request_bytes is Some
                &&& mode matches Mode::Strict(config) ==> request_bytes->0
                    <= config.payload.request_bytes
                &&& catalog.routes.contains_key(name)
                &&& child == catalog.routes[name].child
                &&& !catalog.children.contains_key(child)
            },
            Some(Obstacle::NotAllowed) => {
                &&& request_bytes is Some
                &&& mode matches Mode::Strict(config) ==> request_bytes->0
                    <= config.payload.request_bytes
                &&& catalog.routes.contains_key(name)
                &&& catalog.children.contains_key(catalog.routes[name].child)
                &&& limits_of(
                    mode,
                    catalog.routes[name].child,
                    catalog.routes[name].original_name,
                ) is None
            },
        },
{
}

/// A call that is too large is answered by its size and the limit, and not as one to repeat; a tool or a child that is
/// not there is named; no other obstacle is answered by an error of the protocol.
pub proof fn law_refusals_name_their_obstacle(refusal: Refusal, obstacle: Obstacle)
    requires
        answers(refusal, obstacle),
    ensures
        match obstacle {
            Obstacle::Unencodable => refusal matches Refusal::Reply(ToolReply::Text(text)) && text@
                == "Gateway cannot encode tool arguments"@,
            Obstacle::TooLarge(actual, limit) => refusal matches Refusal::Reply(
                ToolReply::TooLarge(large),
            ) && large.actual_bytes == actual && large.limit_bytes == limit && !large.retryable
                && large.kind@ == "request"@ && large.code@ == "payload_too_large"@,
            Obstacle::UnknownTool(name) => refusal matches Refusal::InvalidParams(message)
                && message@ == "unknown tool '"@ + name + "'"@,
            Obstacle::NotRunning(child) => refusal matches Refusal::InvalidParams(message)
                && message@ == "child MCP '"@ + child + "' is not running"@,
            Obstacle::NotAllowed => refusal matches Refusal::Reply(ToolReply::Text(text)) && text@
                == "tool is not allowed by active Gateway profile"@,
        },
{
}

/// A call has returned exactly if the child answered it with a result. Its outcome is unknown exactly if it reached the
/// child, and the child fell silent, was cancelled or was not waited for any longer. It has failed otherwise.
pub proof fn law_outcomes_go_by_how_the_call_ended(end: CallEnd)
    ensures
        outcome_of(end) == RequestOutcome::Returned <==> (end matches CallEnd::Answered(response)
            && response is Result),
        outcome_of(end) == RequestOutcome::Unknown <==> end is WaitEnded || (
        end matches CallEnd::Answered(response) && (response is TransportClosed
            || response is Cancelled)),
        outcome_of(end) == RequestOutcome::Failed <==> end is NotAdmitted || end is NotDispatched
            || (end matches CallEnd::Answered(response) && (response is OtherResult
            || response is Failed)),
{
}

/// The client gets the child's own answer exactly if there is one; the gateway's own answer is of the kind that the
/// outcome calls for, and gives the identifier of the request exactly if its outcome may still become known.
pub proof fn law_answers_fit_the_outcome(
    reply: Option<ToolReply>,
    end: CallEnd,
    name: Seq<char>,
    request_id: Seq<char>,
)
    requires
        is_answer(reply, end, name, request_id),
    ensures
        reply is None <==> (end matches CallEnd::Answered(response) && response is Result),
        (reply matches Some(answer) && answer is Text) <==> end is NotAdmitted
            || end is NotDispatched || (end matches CallEnd::Answered(response) && (
        response is OtherResult || response is Failed)),
        reply matches Some(answer) ==> answer is Text || answer is Unknown,
        reply matches Some(ToolReply::Unknown(unknown)) ==> {
            &&& unknown.gateway_request_id is Some <==> end is WaitEnded
            &&& unknown.gateway_request_id matches Some(id) ==> id@ == request_id
            &&& unknown.message@ == end_text(end, name)
            &&& !unknown.retryable
        },
        reply matches Some(ToolReply::Text(text)) ==> text@ == end_text(end, name),
{
}

/// What is told of the end of a call names the tool and gives the reason, if there is one.
pub proof fn law_the_end_of_a_call_is_told_with_its_reason(end: CallEnd, name: Seq<char>)
    ensures
        match end {
            CallEnd::NotAdmitted(AdmissionError::Saturated) => end_text(end, name)
                == "Gateway request queue is full"@,
            CallEnd::NotAdmitted(AdmissionError::Cancelled) => end_text(end, name)
                == "Gateway request cancelled before dispatch"@,
            CallEnd::NotAdmitted(AdmissionError::Deadline) => end_text(end, name)
                == "Gateway request expired before dispatch"@,
            CallEnd::NotAdmitted(AdmissionError::Draining) => end_text(end, name)
                == "Gateway is draining; retry after lifecycle change completes"@,
            CallEnd::NotDispatched(error) => end_text(end, name)
                == "child MCP call could not be dispatched for '"@ + name + "': "@ + error@,
            CallEnd::WaitEnded(error) => end_text(end, name)
                == "child MCP call ended upstream wait after dispatch for '"@ + name
                + "'; outcome is pending; do not automatically retry; cancel_error="@ + error@,
            CallEnd::Answered(ChildResponse::Result) => true,
            CallEnd::Answered(ChildResponse::OtherResult) => end_text(end, name)
                == "child MCP call returned an unexpected response type for '"@ + name + "'"@,
            CallEnd::Answered(ChildResponse::TransportClosed) => end_text(end, name)
                == "child MCP transport closed after dispatch for '"@ + name
                + "'; outcome is unknown; do not automatically retry"@,
            CallEnd::Answered(ChildResponse::Cancelled(None)) => end_text(end, name)
                == "child MCP call was cancelled after dispatch for '"@ + name + "'"@
                + "; outcome is unknown; do not automatically retry"@,
            CallEnd::Answered(ChildResponse::Cancelled(Some(reason))) => end_text(end, name)
                == "child MCP call was cancelled after dispatch for '"@ + name + "'"@ + (": "@
                + reason@) + "; outcome is unknown; do not automatically retry"@,
            CallEnd::Answered(ChildResponse::Failed(error)) => end_text(end, name)
                == "child MCP call failed for '"@ + name + "': "@ + error@,
        },
{
    if let CallEnd::Answered(ChildResponse::Cancelled(None)) = end {
        assert(end_text(end, name) =~= "child MCP call was cancelled after dispatch for '"@ + name
            + "'"@ + "; outcome is unknown; do not automatically retry"@);
    }
}

} // verus!
