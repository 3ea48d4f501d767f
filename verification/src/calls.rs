//! Calls as the gateway handles them: entered, followed and noted.
use crate::call::{answers, conclude, is_answer, obstacle, outcome_of, registry_full, route_call, CallEnd, ChildResponse, Refusal, RoutedCall};
use crate::catalog::Catalog;
use crate::gateway::GatewayCore;
use crate::ids::canonical;
use crate::policy::{limits_of, Mode};
use crate::reply::{says, ToolReply};
use crate::request_registry::{queued, updated, Phase, Ticket, MAX_ACTIVE_REQUESTS};
use crate::span::Span;
use crate::telemetry::{capped_millis, recorded, request_observation, Event, GuardAction, Observation, RequestOutcome};
use vstd::prelude::*;

verus! {

/// A call on its way: where it goes, and its place among the requests in progress.
#[derive(Debug)]
pub struct OpenCall {
    pub call: RoutedCall,
    pub ticket: Ticket,
}

/// The call goes where its route leads, within the limits that hold there.
pub open spec fn is_routed(call: RoutedCall, mode: Mode, catalog: Catalog, name: Seq<char>) -> bool {
    let route = catalog.routes[name];
    let limits = limits_of(mode, route.child, route.original_name)->0;
    &&& call.child@ == route.child
    &&& call.original_name@ == route.original_name
    &&& call.timeout_ms == catalog.children[route.child].config.timeout_ms
    &&& call.spec.child@ == route.child
    &&& call.spec.tool@ == route.child + ":"@ + route.original_name
    &&& call.spec.child_limit == limits.0
    &&& call.spec.tool_limit == limits.1
}

/// How long a call waited and ran, how large its answer was, and what the guard did.
#[derive(Debug, Clone, Copy)]
pub struct Measures {
    pub queue: Span,
    pub execution: Span,
    pub response_bytes: usize,
    pub guard: GuardAction,
}

/// What is noted of how a call went, in nanoseconds and bytes.
pub struct Account {
    pub queue: nat,
    pub execution: nat,
    pub response_bytes: usize,
    pub guard: GuardAction,
}

impl View for Measures {
    type V = Account;

    open spec fn view(&self) -> Account {
        Account {
            queue: self.queue@,
            execution: self.execution@,
            response_bytes: self.response_bytes,
            guard: self.guard,
        }
    }
}

/// Only an answer that is passed on has a size and meets the guard, and only a call that was admitted runs.
pub open spec fn accounted(end: CallEnd, measured: Account) -> Account {
    if end == CallEnd::Answered(ChildResponse::Result) {
        measured
    } else {
        Account {
            queue: measured.queue,
            execution: if end is NotAdmitted {
                0
            } else {
                measured.execution
            },
            response_bytes: 0,
            guard: GuardAction::NotApplied,
        }
    }
}

fn account(end: &CallEnd, measured: Measures) -> (r: Measures)
    ensures
        r@ == accounted(*end, measured@),
{
    match end {
        CallEnd::Answered(ChildResponse::Result) => measured,
        CallEnd::NotAdmitted(_) => Measures {
            queue: measured.queue,
            execution: Span::from_secs(0),
            response_bytes: 0,
            guard: GuardAction::NotApplied,
        },
        _ => Measures {
            queue: measured.queue,
            execution: measured.execution,
            response_bytes: 0,
            guard: GuardAction::NotApplied,
        },
    }
}

/// The history with what is noted of a call.
pub open spec fn noted(
    log: Seq<Event>,
    after: Seq<Event>,
    request_id: Seq<char>,
    child: Seq<char>,
    tool: Seq<char>,
    noted_outcome: RequestOutcome,
    account: Account,
    generations: (u64, u64),
) -> bool {
    exists|event: Observation, now_ms: u128|
        after == #[trigger] recorded(log, event, now_ms) && (event matches Observation::Request {
            request_id: id,
            child: c,
            tool: t,
            outcome,
            queue_ms,
            execution_ms,
            response_bytes,
            guard,
            catalog_generation,
            profile_generation,
        } && id@ == request_id && c@ == child && t@ == tool && outcome == noted_outcome && queue_ms
            == capped_millis(account.queue) && execution_ms == capped_millis(
            account.execution,
        ) && response_bytes == account.response_bytes && guard == account.guard
            && catalog_generation == generations.0 && profile_generation == generations.1)
}

impl GatewayCore {
    /// Enters a call among the requests in progress, if it has a place to go and there is room. `request_bytes` is the
    /// size of its encoded arguments, if they can be encoded.
    pub fn open_call(&mut self, name: &str, request_bytes: Option<usize>) -> (r: Result<
        OpenCall,
        Refusal,
    >)
        ensures
            ({
                let found = obstacle(old(self).policy, old(self).state@, name@, request_bytes);
                match found {
                    Some(obstacle) => *final(self) == *old(self) && (r matches Err(refusal)
                        && answers(refusal, obstacle)),
                    None => if old(self).request_registry@.len() >= MAX_ACTIVE_REQUESTS {
                        final(self).request_registry@ == old(self).request_registry@ && (
                        r matches Err(Refusal::Reply(reply)) && says(
                            reply,
                            "Gateway active request registry is full"@,
                        ))
                    } else {
                        r matches Ok(open) && is_routed(
                            open.call,
                            old(self).policy,
                            old(self).state@,
                            name@,
                        ) && canonical(open.ticket@) && final(self).request_registry@.contains_key(open.ticket@) && final(self).request_registry@ == old(self).request_registry@.insert(
                            open.ticket@,
                            final(self).request_registry@[open.ticket@],
                        ) && exists|child: String, tool: String, now_ms: u128| #[trigger]
                            queued(
                                final(self).request_registry@[open.ticket@],
                                open.ticket@,
                                child,
                                tool,
                                now_ms,
                            ) && child@ == open.call.child@ && tool@ == open.call.original_name@
                    },
                }
            }),
            *final(self) == (GatewayCore {
                request_registry: final(self).request_registry,
                ..*old(self)
            }),
    {
        let call = match route_call(&self.policy, &self.state, name, request_bytes) {
            Err(refusal) => {
                return Err(refusal);
            },
            Ok(call) => call,
        };
        match self.request_registry.begin(call.child.clone(), call.original_name.clone()) {
            None => Err(Refusal::Reply(registry_full())),
            Some(ticket) => Ok(OpenCall { call, ticket }),
        }
    }

    /// Notes the end of a call, and answers the client where the child's answer is not passed on. Where the gateway
    /// does not wait any more, the request stays in progress.
    pub fn end_call(
        &mut self,
        name: &str,
        open: &OpenCall,
        end: &CallEnd,
        measures: Measures,
    ) -> (r: Option<ToolReply>)
        ensures
            is_answer(r, *end, name@, open.ticket@),
            final(self).request_registry@ == if *end is WaitEnded {
                updated(old(self).request_registry@, open.ticket@, Phase::Pending, None)
            } else {
                old(self).request_registry@
            },
            noted(
                old(self).telemetry@,
                final(self).telemetry@,
                open.ticket@,
                open.call.child@,
                open.call.original_name@,
                outcome_of(*end),
                accounted(*end, measures@),
                (old(self).catalog_generation, old(self).profile_generation),
            ),
            *final(self) == (GatewayCore {
                request_registry: final(self).request_registry,
                telemetry: final(self).telemetry,
                ..*old(self)
            }),
    {
        let (outcome, reply) = conclude(name, end, open.ticket.id());
        if let CallEnd::WaitEnded(_) = end {
            open.ticket.pending(&mut self.request_registry);
        }
        self.note_outcome(
            &open.ticket,
            &open.call.child,
            &open.call.original_name,
            outcome,
            account(end, measures),
        );
        reply
    }

    /// Notes what became of a call.
    pub fn note_outcome(
        &mut self,
        ticket: &Ticket,
        child: &str,
        tool: &str,
        outcome: RequestOutcome,
        measures: Measures,
    )
        ensures
            noted(
                old(self).telemetry@,
                final(self).telemetry@,
                ticket@,
                child@,
                tool@,
                outcome,
                measures@,
                (old(self).catalog_generation, old(self).profile_generation),
            ),
            *final(self) == (GatewayCore { telemetry: final(self).telemetry, ..*old(self) }),
    {
        let observation = request_observation(
            child,
            tool,
            outcome,
            measures.queue,
            measures.execution,
            measures.response_bytes,
            measures.guard,
        );
        self.record_request(ticket.id(), observation);
    }
}

/// An open call goes to the child and the tool that its route names, waits as long as the child's configuration says,
/// and is counted for the child and for the tool of that child, within the limits of the policy.
pub proof fn law_open_calls_follow_their_route(
    call: RoutedCall,
    mode: Mode,
    catalog: Catalog,
    name: Seq<char>,
)
    requires
        is_routed(call, mode, catalog, name),
    ensures
        call.child@ == catalog.routes[name].child,
        call.original_name@ == catalog.routes[name].original_name,
        call.timeout_ms == catalog.children[call.child@].config.timeout_ms,
        call.spec.child@ == call.child@,
        call.spec.tool@ == call.child@ + ":"@ + call.original_name@,
        limits_of(mode, call.child@, call.original_name@) is Some ==> limits_of(
            mode,
            call.child@,
            call.original_name@,
        ) == Some((call.spec.child_limit, call.spec.tool_limit)),
{
}

/// A measured call is noted as it was measured if its answer was passed on. A size and the work of the guard are noted
/// of no other call, and a time to run of none that was not admitted; how long it waited is noted of each.
pub proof fn law_calls_are_accounted_for_as_they_went(end: CallEnd, measures: Measures)
    ensures
        accounted(end, measures@).queue == measures.queue@,
        accounted(end, measures@).execution == if end is NotAdmitted {
            0
        } else {
            measures.execution@
        },
        (end matches CallEnd::Answered(response) && response is Result) ==> accounted(
            end,
            measures@,
        ).response_bytes == measures.response_bytes && accounted(end, measures@).guard
            == measures.guard,
        !(end matches CallEnd::Answered(response) && response is Result) ==> accounted(
            end,
            measures@,
        ).response_bytes == 0 && accounted(end, measures@).guard == GuardAction::NotApplied,
{
}

/// A call is noted by one more event, which names the request, the child and the tool, and gives the outcome, the
/// times in whole milliseconds, the size, the work of the guard and the generations.
pub proof fn law_calls_are_noted_once(
    log: Seq<Event>,
    after: Seq<Event>,
    request_id: Seq<char>,
    child: Seq<char>,
    tool: Seq<char>,
    outcome: RequestOutcome,
    account: Account,
    generations: (u64, u64),
)
    requires
        noted(log, after, request_id, child, tool, outcome, account, generations),
    ensures
        after.len() == log.len() + 1,
        after.drop_last() == log,
        after.last().observation matches Observation::Request {
            request_id: told_id,
            child: told_child,
            tool: told_tool,
            outcome: told_outcome,
            queue_ms,
            execution_ms,
            response_bytes,
            guard,
            catalog_generation,
            profile_generation,
        } && told_id@ == request_id && told_child@ == child && told_tool@ == tool && told_outcome
            == outcome && (queue_ms == account.queue / 1_000_000 || queue_ms == u64::MAX
            && account.queue / 1_000_000 > u64::MAX) && (execution_ms == account.execution / 1_000_000
            || execution_ms == u64::MAX && account.execution / 1_000_000 > u64::MAX)
            && response_bytes == account.response_bytes && guard == account.guard
            && catalog_generation == generations.0 && profile_generation == generations.1,
{
    assert(after.drop_last() =~= log);
}

} // verus!
