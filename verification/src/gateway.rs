//! The gateway: its policy, its catalog, its requests, and how it is drained, reloaded and resumed.
use crate::catalog::{catalog_fingerprint, profile_fingerprint, profile_identity, route_lines, summarize, Catalog, ChildStatus, Condition, ReloadSummary, RunningChild, Snapshot, TOOL_LIST_SERVERS, TOOL_READ_ARTIFACT, TOOL_RELOAD, TOOL_SET_ENABLED};
use crate::clock;
use crate::control;
use crate::control::Action;
use crate::digest::sha256_of;
use crate::encoding::hex;
use crate::name_map::{texts, NameSet};
use crate::policy::{active_profile_name, policy_in, profile_changed, profile_name, scheduler_limits, Mode};
use crate::progress::Relay;
use crate::reload::{cancel_snapshot_except, not_kept, Ready};
use crate::request::{Coordinator, Scheduler};
use crate::request_registry;
use crate::request_registry::Registry;
use crate::supervisor;
use crate::telemetry;
use crate::telemetry::{first_available, last_of_page, page, recorded, request_event, Event, Observation, RequestObservation};
use crate::text::glue;
use vstd::prelude::*;
use vstd::utf8::*;

verus! {

#[derive(Debug, Clone, Copy, PartialEq, Eq, Structural)]
pub enum DrainPhase {
    Running,
    Draining,
    Drained,
}

impl DrainPhase {
    pub open spec fn text(self) -> Seq<char> {
        match self {
            DrainPhase::Running => "RUNNING"@,
            DrainPhase::Draining => "DRAINING"@,
            DrainPhase::Drained => "DRAINED"@,
        }
    }

    pub fn as_str(self) -> (r: &'static str)
        ensures
            r@ == self.text(),
    {
        match self {
            DrainPhase::Running => "RUNNING",
            DrainPhase::Draining => "DRAINING",
            DrainPhase::Drained => "DRAINED",
        }
    }
}

/// Whether requests are let in, and how often they were shut out so far.
#[derive(Debug, Clone, Copy, PartialEq, Eq, Structural)]
pub struct DrainState {
    pub phase: DrainPhase,
    pub generation: u64,
}

impl DrainState {
    pub open spec fn initial() -> DrainState {
        DrainState { phase: DrainPhase::Running, generation: 0 }
    }

    /// A drain begins, unless one is under way.
    pub open spec fn begun(self) -> DrainState {
        if self.phase == DrainPhase::Running {
            DrainState {
                phase: DrainPhase::Draining,
                generation: (self.generation + 1) as u64,
            }
        } else {
            self
        }
    }

    /// The wait for the running requests is over: they have finished, or some have not.
    pub open spec fn settled(self, drained: bool) -> DrainState {
        if drained {
            DrainState { phase: DrainPhase::Drained, ..self }
        } else {
            self
        }
    }

    pub open spec fn running(self) -> DrainState {
        DrainState { phase: DrainPhase::Running, ..self }
    }

    /// The drain of this generation is under way.
    pub open spec fn is_under_way(self, generation: u64) -> bool {
        self.generation == generation && self.phase != DrainPhase::Running
    }
}

/// A resume that names no drain under way.
#[derive(Debug, Clone, Copy, PartialEq, Eq, Structural)]
pub struct StaleDrain;

impl StaleDrain {
    pub fn message(&self) -> (r: &'static str)
        ensures
            r@ == "drain generation does not match an active drain"@,
    {
        "drain generation does not match an active drain"
    }
}

/// A lifecycle change that was given up, because requests still ran when the wait for them was over.
#[derive(Debug, Clone, Copy, PartialEq, Eq, Structural)]
pub struct DrainTimedOut;

impl DrainTimedOut {
    pub fn message(&self) -> (r: &'static str)
        ensures
            r@ == "gateway drain timed out with dispatched requests still active"@,
    {
        "gateway drain timed out with dispatched requests still active"
    }
}

pub struct GatewayCore {
    pub policy: Mode,
    pub coordinator: Coordinator,
    pub request_registry: Registry,
    pub progress: Relay,
    pub telemetry: telemetry::Store,
    pub state: Snapshot,
    pub drain: DrainState,
    pub catalog_generation: u64,
    pub profile_generation: u64,
    pub instance_id: String,
}

/// The generation after this one. After the largest they start anew.
pub open spec fn next_generation(generation: u64) -> u64 {
    if generation == u64::MAX {
        0
    } else {
        (generation + 1) as u64
    }
}

/// Requests are let in if and only if no drain is under way.
pub open spec fn in_step(drain: DrainState, scheduler: Scheduler) -> bool {
    scheduler.open <==> drain.phase == DrainPhase::Running
}

/// How a configured child fares now: what was noted of it, with what is known of it where it runs.
pub open spec fn live_status(
    status: Condition,
    children: Map<Seq<char>, RunningChild>,
    closed: Set<Seq<char>>,
    name: Seq<char>,
) -> Condition {
    if children.contains_key(name) {
        (Condition { running: !closed.contains(name), ..status }).with_recovery(
            children[name].recovery,
        )
    } else {
        status
    }
}

/// What is told of the gateway when it is asked for its servers.
#[derive(Debug)]
pub struct ServerStatus {
    pub servers: Vec<ChildStatus>,
    pub exposed_child_tools: usize,
    pub gateway_tools: Vec<&'static str>,
    pub policy_schema_version: Option<u32>,
    pub active_profile: Option<String>,
    pub profile_generation: u64,
    pub queued_requests: usize,
    pub active_requests: Vec<request_registry::View>,
    pub admission_open: bool,
}

/// What a control request leads to.
#[derive(Debug)]
pub enum ControlStep {
    Reply(control::Response),
    Drain,
    Reload,
}

/// What a new catalog in use came to: the summary, the children of the last one that are to be stopped, and what is
/// noted.
#[derive(Debug)]
pub struct Committed {
    pub summary: ReloadSummary,
    pub cancel: Vec<String>,
    pub observation: Observation,
}

impl GatewayCore {
    /// A gateway under this policy at its start.
    pub open spec fn is_new(self, policy: Mode, process: u32, now_ms: u128) -> bool {
        &&& self.policy == policy
        &&& self.coordinator@ == (match policy_in(policy) {
            None => Scheduler::initial(16, 64, 30_000_000_000),
            Some(config) => Scheduler::initial(
                config.limits.global_active,
                config.limits.global_queue,
                (config.limits.queue_wait_ms * 1_000_000) as nat,
            ),
        })
        &&& self.request_registry@ == Map::<Seq<char>, request_registry::View>::empty()
        &&& self.progress@ == Map::<Seq<char>, crate::progress::Token>::empty()
        &&& self.telemetry@ == Seq::<Event>::empty()
        &&& self.state@ == Catalog::empty()
        &&& self.drain == DrainState::initial()
        &&& self.catalog_generation == 0
        &&& self.profile_generation == 1
        &&& self.instance_id@ == crate::text::decimal(process as nat) + "-"@
            + crate::text::decimal(now_ms as nat)
    }

    /// What comes of a look at the children.
    pub open spec fn looked_at(
        self,
        after: GatewayCore,
        closed: Set<Seq<char>>,
        now_ms: u64,
        due: bool,
    ) -> bool {
        let entries = self.state.children.listing();
        let seen = supervisor::round(supervisor::viewed(entries), closed, now_ms);
        let now = after.state.children.listing();
        &&& due == seen.due
        &&& now.len() == entries.len()
        &&& forall|i: int|
            0 <= i < now.len() ==> (#[trigger] now[i]).0 == entries[i].0 && now[i].1@
                == seen.children[i]
        &&& after.telemetry@.len() == self.telemetry@.len() + seen.sightings.len()
        &&& after.telemetry@.take(self.telemetry@.len() as int) == self.telemetry@
        &&& forall|i: int|
            0 <= i < seen.sightings.len() ==> supervisor::is_sighting(
                (#[trigger] after.telemetry@[self.telemetry@.len() + i]).observation,
                seen.sightings[i],
            )
        &&& telemetry::numbered(after.telemetry@)
        &&& after == (GatewayCore {
            state: (Snapshot { children: after.state.children, ..self.state }),
            telemetry: after.telemetry,
            ..self
        })
    }

    /// A gateway without children. `process` and `now_ms` tell it from others.
    pub fn new_at(policy: Mode, process: u32, now_ms: u128) -> (r: Self)
        ensures
            r.is_new(policy, process, now_ms),
    {
        let (global_active, global_queue, queue_wait) = scheduler_limits(&policy);
        GatewayCore {
            policy,
            coordinator: Coordinator::new(global_active, global_queue, queue_wait),
            request_registry: Registry::new(),
            progress: Relay::new(),
            telemetry: telemetry::Store::new(),
            state: Snapshot::default(),
            drain: DrainState { phase: DrainPhase::Running, generation: 0 },
            catalog_generation: 0,
            profile_generation: 1,
            instance_id: glue(
                &glue(&crate::text::to_decimal(process as u128), "-"),
                &crate::text::to_decimal(now_ms),
            ),
        }
    }

    /// A gateway without children, that starts now.
    pub fn new(policy: Mode, process: u32) -> (r: Self)
        ensures
            exists|now_ms: u128| #[trigger] r.is_new(policy, process, now_ms),
    {
        let now_ms: u128 = clock::unix_millis();
        GatewayCore::new_at(policy, process, now_ms)
    }

    /// Begins a drain, unless one is under way: no request is let in any more. Tells its generation.
    pub fn begin_drain(&mut self) -> (r: u64)
        requires
            old(self).drain.phase == DrainPhase::Running ==> old(self).drain.generation < u64::MAX,
        ensures
            r == final(self).drain.generation,
            final(self).drain == old(self).drain.begun(),
            final(self).coordinator@ == if old(self).drain.phase == DrainPhase::Running {
                old(self).coordinator@.with_admission(false)
            } else {
                old(self).coordinator@
            },
            *final(self) == (GatewayCore {
                drain: final(self).drain,
                coordinator: final(self).coordinator,
                ..*old(self)
            }),
    {
        if self.drain.phase == DrainPhase::Running {
            self.drain = DrainState {
                phase: DrainPhase::Draining,
                generation: self.drain.generation + 1,
            };
            self.coordinator.close_admission();
        }
        self.drain.generation
    }

    /// The wait of a drain for the running requests is over.
    pub fn settle_drain(&mut self, drained: bool)
        ensures
            final(self).drain == old(self).drain.settled(drained),
            *final(self) == (GatewayCore { drain: final(self).drain, ..*old(self) }),
    {
        if drained {
            self.drain = DrainState {
                phase: DrainPhase::Drained,
                generation: self.drain.generation,
            };
        }
    }

    /// The wait of a drain for the running requests is over, and a lifecycle change is to follow. It is given up where
    /// some still run; requests stay shut out then.
    pub fn enter_lifecycle(&mut self, drained: bool) -> (r: Result<(), DrainTimedOut>)
        ensures
            r is Ok <==> drained,
            final(self).drain == old(self).drain.settled(drained),
            *final(self) == (GatewayCore { drain: final(self).drain, ..*old(self) }),
    {
        self.settle_drain(drained);
        if drained {
            Ok(())
        } else {
            Err(DrainTimedOut)
        }
    }

    /// Ends the drain of this generation, if it is under way: requests are let in again.
    pub fn resume(&mut self, generation: u64) -> (r: Result<(), StaleDrain>)
        ensures
            r is Ok <==> old(self).drain.is_under_way(generation),
            r is Ok ==> final(self).drain == old(self).drain.running() && final(self).coordinator@
                == old(self).coordinator@.with_admission(true),
            r is Err ==> *final(self) == *old(self),
            *final(self) == (GatewayCore {
                drain: final(self).drain,
                coordinator: final(self).coordinator,
                ..*old(self)
            }),
    {
        if self.drain.generation != generation || self.drain.phase == DrainPhase::Running {
            return Err(StaleDrain);
        }
        self.finish_lifecycle();
        Ok(())
    }

    /// Ends a drain after a lifecycle change: requests are let in again.
    pub fn finish_lifecycle(&mut self)
        ensures
            final(self).drain == old(self).drain.running(),
            final(self).coordinator@ == old(self).coordinator@.with_admission(true),
            *final(self) == (GatewayCore {
                drain: final(self).drain,
                coordinator: final(self).coordinator,
                ..*old(self)
            }),
    {
        self.drain = DrainState {
            phase: DrainPhase::Running,
            generation: self.drain.generation,
        };
        self.coordinator.open_admission();
    }

    /// Puts a whole new catalog and its policy in use. Tells what is to be noted.
    pub fn adopt(&mut self, ready: Ready) -> (r: Committed)
        ensures
            final(self).state == ready.next,
            final(self).policy == ready.mode,
            final(self).catalog_generation == next_generation(old(self).catalog_generation),
            final(self).profile_generation == if profile_name(old(self).policy) != profile_name(
                ready.mode,
            ) {
                next_generation(old(self).profile_generation)
            } else {
                old(self).profile_generation
            },
            *final(self) == (GatewayCore {
                state: final(self).state,
                policy: final(self).policy,
                catalog_generation: final(self).catalog_generation,
                profile_generation: final(self).profile_generation,
                ..*old(self)
            }),
            texts(r.cancel@) == not_kept(old(self).state.children.listing(), ready.reused@),
            r.observation matches Observation::Catalog {
                catalog_generation,
                profile_generation,
                catalog_fingerprint: catalog,
                profile_fingerprint: profile,
            } && catalog_generation == final(self).catalog_generation && profile_generation
                == final(self).profile_generation && catalog@ == hex(
                sha256_of(encode_utf8(route_lines(ready.next.routes.listing()))),
            ) && profile@ == hex(sha256_of(encode_utf8(profile_identity(ready.mode)))),
            r.summary.configured_servers == ready.next.statuses@.len(),
            r.summary.enabled_servers == crate::catalog::enabled_count(
                ready.next.statuses.listing(),
            ),
            r.summary.running_servers == crate::catalog::running_count(
                ready.next.statuses.listing(),
            ),
            r.summary.exposed_child_tools == ready.next.routes@.len(),
            texts(r.summary.failed_servers@) == crate::catalog::failed_names(
                ready.next.statuses.listing(),
            ),
    {
        let changed = profile_changed(&self.policy, &ready.mode);
        let summary = summarize(&ready.next);
        let catalog_fingerprint = catalog_fingerprint(&ready.next);
        let profile_fingerprint = profile_fingerprint(&ready.mode);
        let cancel = cancel_snapshot_except(&self.state.children, &ready.reused);
        self.state = ready.next;
        self.policy = ready.mode;
        self.catalog_generation = self.catalog_generation.wrapping_add(1);
        if changed {
            self.profile_generation = self.profile_generation.wrapping_add(1);
        }
        let observation = Observation::Catalog {
            catalog_generation: self.catalog_generation,
            profile_generation: self.profile_generation,
            catalog_fingerprint,
            profile_fingerprint,
        };
        Committed { summary, cancel, observation }
    }

    /// Puts a whole new catalog and its policy in use, and notes it. Tells what came of it, and which children of the
    /// last catalog are to be stopped.
    pub fn commit(&mut self, ready: Ready) -> (r: (ReloadSummary, Vec<String>))
        ensures
            final(self).state == ready.next,
            final(self).policy == ready.mode,
            final(self).catalog_generation == next_generation(old(self).catalog_generation),
            final(self).profile_generation == if profile_name(old(self).policy) != profile_name(
                ready.mode,
            ) {
                next_generation(old(self).profile_generation)
            } else {
                old(self).profile_generation
            },
            *final(self) == (GatewayCore {
                state: final(self).state,
                policy: final(self).policy,
                catalog_generation: final(self).catalog_generation,
                profile_generation: final(self).profile_generation,
                telemetry: final(self).telemetry,
                ..*old(self)
            }),
            texts(r.1@) == not_kept(old(self).state.children.listing(), ready.reused@),
            exists|event: Observation, now_ms: u128|
                final(self).telemetry@ == #[trigger] recorded(old(self).telemetry@, event, now_ms)
                    && (event matches Observation::Catalog {
                    catalog_generation,
                    profile_generation,
                    catalog_fingerprint: catalog,
                    profile_fingerprint: profile,
                } && catalog_generation == final(self).catalog_generation && profile_generation
                    == final(self).profile_generation && catalog@ == hex(
                    sha256_of(encode_utf8(route_lines(ready.next.routes.listing()))),
                ) && profile@ == hex(sha256_of(encode_utf8(profile_identity(ready.mode))))),
            r.0.configured_servers == ready.next.statuses@.len(),
            r.0.enabled_servers == crate::catalog::enabled_count(ready.next.statuses.listing()),
            r.0.running_servers == crate::catalog::running_count(ready.next.statuses.listing()),
            r.0.exposed_child_tools == ready.next.routes@.len(),
            texts(r.0.failed_servers@) == crate::catalog::failed_names(
                ready.next.statuses.listing(),
            ),
    {
        let committed = self.adopt(ready);
        self.telemetry.record(committed.observation);
        (committed.summary, committed.cancel)
    }

    /// Looks at the children at the time `now_ms`, up to the first that is to be started again now. `closed` are
    /// those that have stopped. Tells whether there is one, and notes the states of recovery that it came upon.
    pub fn has_dead_restartable_child_at(&mut self, closed: &NameSet, now_ms: u64) -> (r: bool)
        ensures
            old(self).looked_at(*final(self), closed@, now_ms, r),
    {
        let (due, observations) = supervisor::look_at_children(
            &mut self.state.children,
            closed,
            now_ms,
        );
        self.telemetry.record_all(observations);
        due
    }

    /// Looks at the children now.
    pub fn has_dead_restartable_child(&mut self, closed: &NameSet) -> (r: bool)
        ensures
            exists|now_ms: u64| #[trigger]
                old(self).looked_at(*final(self), closed@, now_ms, r),
    {
        let now_ms: u64 = clock::unix_millis_short();
        self.has_dead_restartable_child_at(closed, now_ms)
    }

    /// Records what became of a request, under the generations in use.
    pub fn record_request(&mut self, request_id: &str, observation: RequestObservation)
        ensures
            exists|event: Observation, now_ms: u128|
                final(self).telemetry@ == #[trigger] recorded(old(self).telemetry@, event, now_ms)
                    && (event matches Observation::Request {
                    request_id: id,
                    child,
                    tool,
                    outcome,
                    queue_ms,
                    execution_ms,
                    response_bytes,
                    guard,
                    catalog_generation,
                    profile_generation,
                } && id@ == request_id@ && child == observation.child && tool == observation.tool
                    && outcome == observation.outcome && queue_ms == observation.queue_ms
                    && execution_ms == observation.execution_ms && response_bytes
                    == observation.response_bytes && guard == observation.guard
                    && catalog_generation == old(self).catalog_generation && profile_generation
                    == old(self).profile_generation),
            *final(self) == (GatewayCore { telemetry: final(self).telemetry, ..*old(self) }),
    {
        let event = request_event(
            request_id,
            observation,
            self.catalog_generation,
            self.profile_generation,
        );
        self.telemetry.record(event);
    }

    /// The answer to a control request.
    pub fn control_response(&self, error: Option<control::Error>) -> (r: control::Response)
        ensures
            r.ok == (error is None),
            r.instance_id@ == self.instance_id@,
            r.state@ == self.drain.phase.text(),
            r.drain_generation == self.drain.generation,
            r.active_requests == self.coordinator@.leases.len(),
            r.queued_requests == self.coordinator@.queue.len(),
            r.catalog_generation == self.catalog_generation,
            r.profile_generation == self.profile_generation,
            r.history is None,
            r.error == error,
    {
        control::Response {
            ok: error.is_none(),
            instance_id: self.instance_id.clone(),
            state: self.drain.phase.as_str().to_owned(),
            drain_generation: self.drain.generation,
            active_requests: self.coordinator.active(),
            queued_requests: self.coordinator.queued(),
            catalog_generation: self.catalog_generation,
            profile_generation: self.profile_generation,
            history: None,
            error,
        }
    }

    /// What a control request leads to: an answer at once, or a drain or a reload that is answered when it is over.
    pub fn control_step(&mut self, request: control::Request) -> (r: ControlStep)
        requires
            request.action == Action::Resume ==> request.drain_generation is Some,
        ensures
            match request.action {
                Action::Status => *final(self) == *old(self) && (r matches ControlStep::Reply(
                    response,
                ) && response.ok && response.error is None && response.history is None),
                Action::History => *final(self) == *old(self) && (r matches ControlStep::Reply(
                    response,
                ) && response.ok && response.error is None && (response.history matches Some(batch)
                    && ({
                    let after = match request.after_sequence {
                        None => 0,
                        Some(after) => after,
                    };
                    &&& batch.events@ == page(old(self).telemetry@, after)
                    &&& batch.first_available_sequence == first_available(old(self).telemetry@)
                    &&& batch.last_sequence == last_of_page(old(self).telemetry@, after)
                }))),
                Action::Resume => {
                    &&& if old(self).drain.is_under_way(request.drain_generation->0) {
                        &&& final(self).drain == old(self).drain.running()
                        &&& final(self).coordinator@ == old(self).coordinator@.with_admission(true)
                        &&& r matches ControlStep::Reply(response) && response.ok
                            && response.error is None && response.history is None
                    } else {
                        &&& *final(self) == *old(self)
                        &&& r matches ControlStep::Reply(response) && !response.ok && (
                        response.error matches Some(error) && error.code@
                            == "stale_drain_generation"@) && response.history is None
                    }
                    &&& *final(self) == (GatewayCore {
                        drain: final(self).drain,
                        coordinator: final(self).coordinator,
                        ..*old(self)
                    })
                },
                Action::Drain => *final(self) == *old(self) && r is Drain,
                Action::Reload => *final(self) == *old(self) && r is Reload,
            },
            r matches ControlStep::Reply(response) ==> response.state@
                == final(self).drain.phase.text() && response.drain_generation
                == final(self).drain.generation && response.instance_id@
                == final(self).instance_id@ && response.active_requests
                == final(self).coordinator@.leases.len() && response.queued_requests
                == final(self).coordinator@.queue.len() && response.catalog_generation
                == final(self).catalog_generation && response.profile_generation
                == final(self).profile_generation,
    {
        match request.action {
            Action::Status => ControlStep::Reply(self.control_response(None)),
            Action::History => {
                let mut response = self.control_response(None);
                let after: u64 = match request.after_sequence {
                    None => 0,
                    Some(after) => after,
                };
                response.history = Some(self.telemetry.after(after));
                ControlStep::Reply(response)
            },
            Action::Drain => ControlStep::Drain,
            Action::Resume => {
                let error = match self.resume(request.drain_generation.unwrap()) {
                    Ok(()) => None,
                    Err(_) => Some(control::Error { code: "stale_drain_generation" }),
                };
                ControlStep::Reply(self.control_response(error))
            },
            Action::Reload => ControlStep::Reload,
        }
    }

    /// The answer when a drain that was asked for is over.
    pub fn drain_response(&self, drained: bool) -> (r: control::Response)
        ensures
            r.ok == drained,
            r.error is None <==> drained,
            r.error matches Some(error) ==> error.code@ == "drain_timeout"@,
            r.state@ == self.drain.phase.text(),
            r.drain_generation == self.drain.generation,
            r.active_requests == self.coordinator@.leases.len(),
            r.queued_requests == self.coordinator@.queue.len(),
            r.instance_id@ == self.instance_id@,
            r.catalog_generation == self.catalog_generation,
            r.profile_generation == self.profile_generation,
            r.history is None,
    {
        let error = if drained {
            None
        } else {
            Some(control::Error { code: "drain_timeout" })
        };
        self.control_response(error)
    }

    /// The answer when a reload that was asked for is over.
    pub fn reload_response(&self, reloaded: bool) -> (r: control::Response)
        ensures
            r.ok == reloaded,
            r.error is None <==> reloaded,
            r.error matches Some(error) ==> error.code@ == "reload_failed"@,
            r.state@ == self.drain.phase.text(),
            r.drain_generation == self.drain.generation,
            r.active_requests == self.coordinator@.leases.len(),
            r.queued_requests == self.coordinator@.queue.len(),
            r.instance_id@ == self.instance_id@,
            r.catalog_generation == self.catalog_generation,
            r.profile_generation == self.profile_generation,
            r.history is None,
    {
        let error = if reloaded {
            None
        } else {
            Some(control::Error { code: "reload_failed" })
        };
        self.control_response(error)
    }

    /// What is told of the gateway and its servers. `closed` are the children that can not be reached.
    pub fn list_server_status(&self, closed: &NameSet) -> (r: ServerStatus)
        ensures
            r.servers@.len() == self.state.statuses.listing().len(),
            forall|i: int|
                0 <= i < r.servers@.len() ==> (#[trigger] r.servers@[i])@ == live_status(
                    self.state.statuses.listing()[i].1@,
                    self.state@.children,
                    closed@,
                    self.state.statuses.listing()[i].0,
                ),
            r.exposed_child_tools == self.state.routes@.len(),
            r.gateway_tools@.len() == 4,
            r.gateway_tools@[0]@ == TOOL_LIST_SERVERS@,
            r.gateway_tools@[1]@ == TOOL_RELOAD@,
            r.gateway_tools@[2]@ == TOOL_SET_ENABLED@,
            r.gateway_tools@[3]@ == TOOL_READ_ARTIFACT@,
            r.policy_schema_version == (match policy_in(self.policy) {
                None => None,
                Some(config) => Some(config.schema_version),
            }),
            crate::config::optional_text(r.active_profile) == profile_name(self.policy),
            r.profile_generation == self.profile_generation,
            r.queued_requests == self.coordinator@.queue.len(),
            r.active_requests@ == self.request_registry.listing().map_values(
                |entry: (Seq<char>, request_registry::View)| entry.1,
            ),
            r.admission_open == self.coordinator@.open,
    {
        let n: usize = self.state.statuses.len();
        let mut servers: Vec<ChildStatus> = Vec::new();
        let mut i: usize = 0;
        while i < n
            invariant
                i <= n,
                n == self.state.statuses.listing().len(),
                servers@.len() == i,
                forall|j: int|
                    0 <= j < i ==> (#[trigger] servers@[j])@ == live_status(
                        self.state.statuses.listing()[j].1@,
                        self.state@.children,
                        closed@,
                        self.state.statuses.listing()[j].0,
                    ),
            decreases n - i,
        {
            let name = self.state.statuses.key_at(i);
            let mut status = self.state.statuses.value_at(i).clone();
            if let Some(child) = self.state.children.get(name) {
                assert(self.state@.children[name@] == child@);
                status.running = !closed.contains(name);
                status.show_recovery(&child.recovery);
            }
            servers.push(status);
            i = i + 1;
        }
        let mut gateway_tools: Vec<&'static str> = Vec::new();
        gateway_tools.push(TOOL_LIST_SERVERS);
        gateway_tools.push(TOOL_RELOAD);
        gateway_tools.push(TOOL_SET_ENABLED);
        gateway_tools.push(TOOL_READ_ARTIFACT);
        let active_profile = match active_profile_name(&self.policy) {
            None => None,
            Some(profile) => Some(profile.to_owned()),
        };
        ServerStatus {
            servers,
            exposed_child_tools: self.state.routes.len(),
            gateway_tools,
            policy_schema_version: self.policy.schema_version(),
            active_profile,
            profile_generation: self.profile_generation,
            queued_requests: self.coordinator.queued(),
            active_requests: self.request_registry.active(),
            admission_open: self.coordinator.is_accepting(),
        }
    }
}

/// A drain's generation only grows, and grows exactly when a drain begins that is not under way.
pub proof fn law_drain_generation_counts_drains(drain: DrainState, drained: bool)
    requires
        drain.generation < u64::MAX,
    ensures
        drain.begun().generation == drain.generation + if drain.phase == DrainPhase::Running {
            1int
        } else {
            0int
        },
        drain.begun().begun() == drain.begun(),
        drain.settled(drained).generation == drain.generation,
        drain.running().generation == drain.generation,
{
}

/// Only the drain that is under way can be resumed: its generation is accepted, each other one, and any after it was
/// resumed, is stale.
pub proof fn law_only_the_drain_under_way_is_resumed(drain: DrainState, drained: bool, other: u64)
    ensures
        drain.begun().settled(drained).is_under_way(drain.begun().generation),
        drain.begun().settled(drained).is_under_way(other) ==> other == drain.begun().generation,
        !drain.begun().settled(drained).running().is_under_way(other),
{
}

/// A lifecycle change lets requests in again when it is over, whether or not it came about; one that was given up
/// because requests still ran leaves them shut out, until its drain is resumed.
pub proof fn law_lifecycle_changes_end_their_drain(drain: DrainState, scheduler: Scheduler)
    ensures
        ({
            let begun = drain.begun();
            let shut = scheduler.with_admission(false);
            &&& in_step(begun.settled(true).running(), shut.with_admission(true))
            &&& begun.settled(true).running().phase == DrainPhase::Running
            &&& in_step(begun.settled(false), shut)
            &&& !shut.open
            &&& begun.settled(false).is_under_way(begun.generation)
        }),
{
}

/// Requests are let in if and only if no drain is under way, whatever happens to the drain.
pub proof fn law_admission_follows_the_drain(drain: DrainState, scheduler: Scheduler, drained: bool)
    requires
        in_step(drain, scheduler),
    ensures
        in_step(
            drain.begun(),
            if drain.phase == DrainPhase::Running {
                scheduler.with_admission(false)
            } else {
                scheduler
            },
        ),
        drain.phase != DrainPhase::Running ==> in_step(drain.settled(drained), scheduler),
        in_step(drain.running(), scheduler.with_admission(true)),
{
}

/// Generations count up by one; the largest is followed by zero.
pub proof fn law_generations_count_up(generation: u64)
    ensures
        next_generation(generation) == (generation + 1) % 0x1_0000_0000_0000_0000,
{
}

/// A drain that begins shuts requests out until it is resumed; it is over as soon as no request runs, and under way
/// until then. Nothing but a drain that begins changes its number.
pub proof fn law_drains_go_through_their_phases(drain: DrainState, drained: bool, generation: u64)
    ensures
        DrainState::initial().phase == DrainPhase::Running,
        DrainState::initial().generation == 0,
        drain.phase == DrainPhase::Running ==> drain.begun().phase == DrainPhase::Draining,
        drain.phase != DrainPhase::Running ==> drain.begun() == drain,
        drain.settled(drained).phase == if drained {
            DrainPhase::Drained
        } else {
            drain.phase
        },
        drain.running().phase == DrainPhase::Running,
        drain.is_under_way(generation) <==> (drain.phase == DrainPhase::Draining || drain.phase
            == DrainPhase::Drained) && drain.generation == generation,
        drain.phase.text() == match drain.phase {
            DrainPhase::Running => "RUNNING"@,
            DrainPhase::Draining => "DRAINING"@,
            DrainPhase::Drained => "DRAINED"@,
        },
{
}

/// A child that runs is told with what is known of it now: whether it can be reached, and how its recovery stands. All
/// else is told as it was noted, and so is a child that does not run.
pub proof fn law_running_children_are_told_as_they_fare(
    status: Condition,
    children: Map<Seq<char>, RunningChild>,
    closed: Set<Seq<char>>,
    name: Seq<char>,
)
    ensures
        !children.contains_key(name) ==> live_status(status, children, closed, name) == status,
        children.contains_key(name) ==> {
            let told = live_status(status, children, closed, name);
            let recovery = children[name].recovery;
            &&& told.running <==> !closed.contains(name)
            &&& told.generation == recovery.generation
            &&& told.recovery_state == recovery.state
            &&& told.consecutive_failures == recovery.consecutive_failures
            &&& told.retry_at_ms == recovery.retry_at_ms
            &&& told.name == status.name
            &&& told.enabled == status.enabled
            &&& told.command == status.command
            &&& told.source == status.source
            &&& told.tool_prefix == status.tool_prefix
            &&& told.tool_count == status.tool_count
            &&& told.timeout_ms == status.timeout_ms
            &&& told.restart_policy == status.restart_policy
            &&& told.error == status.error
        },
{
}

/// A gateway starts without children, routes, requests and history, open to requests, in the first generation of its
/// profile, and with the limits of its policy; without a policy sixteen requests may run and sixty-four may wait, for
/// half a minute each.
pub proof fn law_gateways_start_empty_and_open(
    gateway: GatewayCore,
    policy: Mode,
    process: u32,
    now_ms: u128,
)
    requires
        gateway.is_new(policy, process, now_ms),
    ensures
        gateway.policy == policy,
        gateway.state@.tools.len() == 0,
        forall|name: Seq<char>| !(#[trigger] gateway.state@.routes.contains_key(name)),
        forall|name: Seq<char>| !(#[trigger] gateway.state@.children.contains_key(name)),
        forall|name: Seq<char>| !(#[trigger] gateway.state@.statuses.contains_key(name)),
        forall|id: Seq<char>| !(#[trigger] gateway.request_registry@.contains_key(id)),
        forall|token: Seq<char>| !(#[trigger] gateway.progress@.contains_key(token)),
        gateway.telemetry@.len() == 0,
        gateway.coordinator@.open,
        gateway.coordinator@.queue.len() == 0,
        gateway.coordinator@.leases.len() == 0,
        gateway.drain.phase == DrainPhase::Running,
        gateway.drain.generation == 0,
        gateway.catalog_generation == 0,
        gateway.profile_generation == 1,
        gateway.instance_id@ == crate::text::decimal(process as nat) + "-"@ + crate::text::decimal(
            now_ms as nat,
        ),
        match policy {
            Mode::LegacyCompat => gateway.coordinator@.global_limit == 16
                && gateway.coordinator@.queue_limit == 64 && gateway.coordinator@.wait
                == 30_000_000_000,
            Mode::Strict(config) => gateway.coordinator@.global_limit == config.limits.global_active
                && gateway.coordinator@.queue_limit == config.limits.global_queue
                && gateway.coordinator@.wait == config.limits.queue_wait_ms * 1_000_000,
        },
{
}

/// A look at the children keeps each of them under its name, and only adds to the history; nothing else of the gateway
/// is touched by it.
pub proof fn law_looks_touch_the_children_and_the_history(
    before: GatewayCore,
    after: GatewayCore,
    closed: Set<Seq<char>>,
    now_ms: u64,
    due: bool,
)
    requires
        before.looked_at(after, closed, now_ms, due),
    ensures
        after.state.children.listing().len() == before.state.children.listing().len(),
        forall|i: int|
            0 <= i < before.state.children.listing().len() ==> (
            #[trigger] after.state.children.listing()[i]).0
                == before.state.children.listing()[i].0,
        after.telemetry@.len() >= before.telemetry@.len(),
        forall|i: int|
            0 <= i < before.telemetry@.len() ==> #[trigger] after.telemetry@[i]
                == before.telemetry@[i],
        after.state.tools == before.state.tools,
        after.state.routes == before.state.routes,
        after.state.statuses == before.state.statuses,
        after.policy == before.policy,
        after.coordinator == before.coordinator,
        after.request_registry == before.request_registry,
        after.progress == before.progress,
        after.drain == before.drain,
        after.catalog_generation == before.catalog_generation,
        after.profile_generation == before.profile_generation,
        after.instance_id == before.instance_id,
{
    assert forall|i: int| 0 <= i < before.telemetry@.len() implies #[trigger] after.telemetry@[i]
        == before.telemetry@[i] by {
        assert(after.telemetry@.take(before.telemetry@.len() as int)[i] == after.telemetry@[i]);
    }
}

} // verus!
