//! A bounded history of what happened. An observation holds identifiers and measurements only: arguments, results,
//! credentials, paths and artifact data have no place in it.
use crate::clock;
use crate::span::Span;
use std::collections::VecDeque;
use vstd::prelude::*;

verus! {

pub const MAX_EVENTS: usize = 256;

pub const MAX_BATCH_EVENTS: usize = 16;

#[derive(Debug, PartialEq, Eq)]
pub struct Event {
    pub sequence: u64,
    pub observed_at_ms: u128,
    pub observation: Observation,
}

#[derive(Debug, PartialEq, Eq)]
pub enum Observation {
    Request {
        request_id: String,
        child: String,
        tool: String,
        outcome: RequestOutcome,
        queue_ms: u64,
        execution_ms: u64,
        response_bytes: usize,
        guard: GuardAction,
        catalog_generation: u64,
        profile_generation: u64,
    },
    Catalog {
        catalog_generation: u64,
        profile_generation: u64,
        catalog_fingerprint: String,
        profile_fingerprint: String,
    },
    ChildRecovery { child: String, state: RecoveryState, generation: u64 },
}

#[derive(Debug, PartialEq, Eq)]
pub struct RequestObservation {
    pub child: String,
    pub tool: String,
    pub outcome: RequestOutcome,
    pub queue_ms: u64,
    pub execution_ms: u64,
    pub response_bytes: usize,
    pub guard: GuardAction,
}

#[derive(Debug, Clone, Copy, PartialEq, Eq, Structural)]
pub enum RequestOutcome {
    Returned,
    Failed,
    Unknown,
}

#[derive(Debug, Clone, Copy, PartialEq, Eq, Structural)]
pub enum GuardAction {
    NotApplied,
    Passed,
    Guarded,
}

#[derive(Debug, Clone, Copy, PartialEq, Eq, Structural)]
pub enum RecoveryState {
    Restarting,
    CircuitOpen,
    HalfOpen,
}

/// A part of the history, with what a reader needs to go on from it and to see what it missed.
#[derive(Debug, PartialEq, Eq)]
pub struct Batch {
    pub first_available_sequence: u64,
    pub last_sequence: u64,
    pub events: Vec<Event>,
}

impl Clone for Observation {
    fn clone(&self) -> (r: Self)
        ensures
            r == *self,
    {
        match self {
            Observation::Request {
                request_id,
                child,
                tool,
                outcome,
                queue_ms,
                execution_ms,
                response_bytes,
                guard,
                catalog_generation,
                profile_generation,
            } => Observation::Request {
                request_id: request_id.clone(),
                child: child.clone(),
                tool: tool.clone(),
                outcome: *outcome,
                queue_ms: *queue_ms,
                execution_ms: *execution_ms,
                response_bytes: *response_bytes,
                guard: *guard,
                catalog_generation: *catalog_generation,
                profile_generation: *profile_generation,
            },
            Observation::Catalog {
                catalog_generation,
                profile_generation,
                catalog_fingerprint,
                profile_fingerprint,
            } => Observation::Catalog {
                catalog_generation: *catalog_generation,
                profile_generation: *profile_generation,
                catalog_fingerprint: catalog_fingerprint.clone(),
                profile_fingerprint: profile_fingerprint.clone(),
            },
            Observation::ChildRecovery { child, state, generation } => Observation::ChildRecovery {
                child: child.clone(),
                state: *state,
                generation: *generation,
            },
        }
    }
}

impl Clone for Event {
    fn clone(&self) -> (r: Self)
        ensures
            r == *self,
    {
        Event {
            sequence: self.sequence,
            observed_at_ms: self.observed_at_ms,
            observation: self.observation.clone(),
        }
    }
}

/// The number of the event at place `i` of a history; the numbers do not go beyond the largest that they can hold.
pub open spec fn number(i: int) -> u64 {
    if i + 1 < u64::MAX {
        (i + 1) as u64
    } else {
        u64::MAX
    }
}

/// Everything that was recorded, numbered in order.
pub open spec fn numbered(log: Seq<Event>) -> bool {
    forall|i: int| 0 <= i < log.len() ==> (#[trigger] log[i]).sequence == number(i)
}

/// The history after one more observation.
pub open spec fn recorded(log: Seq<Event>, observation: Observation, now_ms: u128) -> Seq<Event> {
    log.push(Event { sequence: number(log.len() as int), observed_at_ms: now_ms, observation })
}

/// What is kept: the latest events, as many as there is room for.
pub open spec fn retained(log: Seq<Event>) -> Seq<Event> {
    if log.len() <= MAX_EVENTS {
        log
    } else {
        log.skip(log.len() - MAX_EVENTS)
    }
}

pub open spec fn later_than(after: u64) -> spec_fn(Event) -> bool {
    |event: Event| event.sequence > after
}

/// The kept events after the number, at most one batch of them.
pub open spec fn page(log: Seq<Event>, after: u64) -> Seq<Event> {
    let rest = retained(log).filter(later_than(after));
    if rest.len() <= MAX_BATCH_EVENTS {
        rest
    } else {
        rest.take(MAX_BATCH_EVENTS as int)
    }
}

pub open spec fn first_available(log: Seq<Event>) -> u64 {
    if log.len() == 0 {
        1
    } else {
        retained(log)[0].sequence
    }
}

/// Where a reader of the page goes on.
pub open spec fn last_of_page(log: Seq<Event>, after: u64) -> u64 {
    let next = number(log.len() as int);
    if page(log, after).len() > 0 {
        page(log, after).last().sequence
    } else if after < next - 1 {
        after
    } else {
        (next - 1) as u64
    }
}

/// Records observations and hands out the latest. Its view is everything that was recorded.
pub struct Store {
    next_sequence: u64,
    events: VecDeque<Event>,
    log: Ghost<Seq<Event>>,
}

impl View for Store {
    type V = Seq<Event>;

    closed spec fn view(&self) -> Seq<Event> {
        self.log@
    }
}

impl Store {
    #[verifier::type_invariant]
    spec fn consistent(self) -> bool {
        &&& numbered(self.log@)
        &&& self.events@ == retained(self.log@)
        &&& self.next_sequence == number(self.log@.len() as int)
    }

    /// The store without events.
    pub fn new() -> (r: Self)
        ensures
            r@ == Seq::<Event>::empty(),
            numbered(r@),
    {
        Store { next_sequence: 1, events: VecDeque::new(), log: Ghost(Seq::empty()) }
    }

    /// Records an observation that was made at `now_ms`.
    pub fn record_at(&mut self, observation: Observation, now_ms: u128)
        ensures
            final(self)@ == recorded(old(self)@, observation, now_ms),
            numbered(final(self)@),
    {
        proof {
            use_type_invariant(&*self);
        }
        let sequence: u64 = self.next_sequence;
        let mut taken = Store::new();
        std::mem::swap(&mut taken, self);
        let Store { next_sequence, mut events, log } = taken;
        let ghost before = events@;
        if events.len() == MAX_EVENTS {
            events.pop_front();
        }
        let event = Event { sequence, observed_at_ms: now_ms, observation };
        let ghost after = log@.push(event);
        events.push_back(event);
        assert(events@ =~= retained(after));
        assert(numbered(after));
        *self = Store {
            next_sequence: next_sequence.saturating_add(1),
            events,
            log: Ghost(after),
        };
    }

    /// Records an observation at the time of the call.
    pub fn record(&mut self, observation: Observation)
        ensures
            exists|now_ms: u128|
                final(self)@ == #[trigger] recorded(old(self)@, observation, now_ms),
            numbered(final(self)@),
    {
        let now_ms: u128 = clock::unix_millis();
        self.record_at(observation, now_ms);
    }

    /// Records observations one after the other.
    pub fn record_all(&mut self, observations: Vec<Observation>)
        ensures
            final(self)@.len() == old(self)@.len() + observations@.len(),
            final(self)@.take(old(self)@.len() as int) == old(self)@,
            forall|i: int|
                0 <= i < observations@.len() ==> (#[trigger] final(self)@[old(self)@.len()
                    + i]).observation == observations@[i],
            numbered(final(self)@),
    {
        let ghost log = self@;
        let ghost told = observations@;
        let mut left = observations;
        proof {
            use_type_invariant(&*self);
            assert(log.take(log.len() as int) =~= log);
        }
        while left.len() > 0
            invariant
                left@.len() <= told.len(),
                left@ == told.skip(told.len() - left@.len()),
                log == old(self)@,
                told == observations@,
                self@.len() == log.len() + told.len() - left@.len(),
                self@.take(log.len() as int) == log,
                forall|i: int|
                    0 <= i < told.len() - left@.len() ==> (#[trigger] self@[log.len()
                        + i]).observation == told[i],
                numbered(self@),
            decreases left.len(),
        {
            let ghost done = told.len() - left@.len();
            let observation = left.remove(0);
            assert(observation == told[done]);
            assert(left@ =~= told.skip(done + 1));
            let ghost before = self@;
            self.record(observation);
            assert(self@.take(log.len() as int) =~= before.take(log.len() as int));
        }
    }

    /// The kept events after the number `after_sequence`, at most one batch of them.
    pub fn after(&self, after_sequence: u64) -> (r: Batch)
        ensures
            r.first_available_sequence == first_available(self@),
            r.events@ == page(self@, after_sequence),
            r.last_sequence == last_of_page(self@, after_sequence),
            numbered(self@),
    {
        proof {
            use_type_invariant(self);
        }
        let first_available_sequence: u64 = if self.events.len() == 0 {
            self.next_sequence
        } else {
            self.events[0].sequence
        };
        let mut events: Vec<Event> = Vec::new();
        let mut i: usize = 0;
        let ghost pred = later_than(after_sequence);
        assert(self.events@.take(0).filter(pred) =~= Seq::<Event>::empty()) by {
            reveal(Seq::filter);
        }
        while i < self.events.len() && events.len() < MAX_BATCH_EVENTS
            invariant
                i <= self.events.len(),
                events@ == self.events@.take(i as int).filter(later_than(after_sequence)),
                events.len() <= MAX_BATCH_EVENTS,
            decreases self.events.len() - i,
        {
            proof {
                reveal(Seq::filter);
                assert(self.events@.take(i + 1).drop_last() =~= self.events@.take(i as int));
            }
            if self.events[i].sequence > after_sequence {
                events.push(self.events[i].clone());
            }
            i = i + 1;
        }
        proof {
            let all = self.events@;
            assert(all =~= all.take(i as int) + all.skip(i as int));
            Seq::filter_distributes_over_add(all.take(i as int), all.skip(i as int), pred);
            if i == all.len() {
                assert(all.take(i as int) =~= all);
            }
            assert(events@ =~= page(self@, after_sequence));
        }
        let last_sequence: u64 = if events.len() > 0 {
            events[events.len() - 1].sequence
        } else {
            let latest: u64 = self.next_sequence.saturating_sub(1);
            if after_sequence < latest {
                after_sequence
            } else {
                latest
            }
        };
        Batch { first_available_sequence, last_sequence, events }
    }
}

/// Whole milliseconds, or the largest number that there is room for.
pub open spec fn capped_millis(nanos: nat) -> u64 {
    if nanos / 1_000_000 <= u64::MAX {
        (nanos / 1_000_000) as u64
    } else {
        u64::MAX
    }
}

/// The measurements of a request. Times go by whole milliseconds, capped at the largest that the field can hold.
pub fn request_observation(
    child: &str,
    tool: &str,
    outcome: RequestOutcome,
    queue: Span,
    execution: Span,
    response_bytes: usize,
    guard: GuardAction,
) -> (r: RequestObservation)
    ensures
        r.child@ == child@,
        r.tool@ == tool@,
        r.outcome == outcome,
        r.queue_ms == capped_millis(queue@),
        r.execution_ms == capped_millis(execution@),
        r.response_bytes == response_bytes,
        r.guard == guard,
{
    RequestObservation {
        child: child.to_owned(),
        tool: tool.to_owned(),
        outcome,
        queue_ms: queue.millis_capped(),
        execution_ms: execution.millis_capped(),
        response_bytes,
        guard,
    }
}

/// The observation of a request, under its number and the generations that it ran in.
pub fn request_event(
    request_id: &str,
    observation: RequestObservation,
    catalog_generation: u64,
    profile_generation: u64,
) -> (r: Observation)
    ensures
        r matches Observation::Request {
            request_id: id,
            child,
            tool,
            outcome,
            queue_ms,
            execution_ms,
            response_bytes,
            guard,
            catalog_generation: catalog,
            profile_generation: profile,
        } && id@ == request_id@ && child == observation.child && tool == observation.tool && outcome
            == observation.outcome && queue_ms == observation.queue_ms && execution_ms
            == observation.execution_ms && response_bytes == observation.response_bytes && guard
            == observation.guard && catalog == catalog_generation && profile == profile_generation,
{
    Observation::Request {
        request_id: request_id.to_owned(),
        child: observation.child,
        tool: observation.tool,
        outcome: observation.outcome,
        queue_ms: observation.queue_ms,
        execution_ms: observation.execution_ms,
        response_bytes: observation.response_bytes,
        guard: observation.guard,
        catalog_generation,
        profile_generation,
    }
}

/// Where the kept events after the number begin.
pub open spec fn start_after(log: Seq<Event>, after: u64) -> int {
    let oldest = if log.len() <= MAX_EVENTS {
        0
    } else {
        log.len() - MAX_EVENTS
    };
    if after < oldest {
        oldest
    } else if after > log.len() {
        log.len() as int
    } else {
        after as int
    }
}

proof fn lemma_filter_is_suffix(events: Seq<Event>, base: int, after: u64)
    requires
        forall|i: int| 0 <= i < events.len() ==> (#[trigger] events[i]).sequence == base + i + 1,
    ensures
        events.filter(later_than(after)) == events.skip(
            if after <= base {
                0
            } else if after - base > events.len() {
                events.len() as int
            } else {
                after - base
            },
        ),
    decreases events.len(),
{
    reveal(Seq::filter);
    let from = if after <= base {
        0
    } else if after - base > events.len() {
        events.len() as int
    } else {
        after - base
    };
    if events.len() > 0 {
        lemma_filter_is_suffix(events.drop_last(), base, after);
        assert(events.last() == events[events.len() - 1]);
        if events.last().sequence > after {
            assert(events.skip(from) =~= events.drop_last().skip(from).push(events.last()));
        } else {
            assert(events.skip(from) =~= Seq::<Event>::empty());
            assert(events.drop_last().filter(later_than(after)) =~= Seq::<Event>::empty());
        }
    } else {
        assert(events.skip(from) =~= events);
    }
}

proof fn lemma_kept_after(log: Seq<Event>, after: u64)
    requires
        numbered(log),
        log.len() < u64::MAX,
    ensures
        retained(log).filter(later_than(after)) == log.skip(start_after(log, after)),
{
    let oldest = if log.len() <= MAX_EVENTS {
        0
    } else {
        log.len() - MAX_EVENTS
    };
    assert(retained(log) =~= log.skip(oldest));
    assert forall|i: int| 0 <= i < retained(log).len() implies (#[trigger] retained(
        log,
    )[i]).sequence == oldest + i + 1 by {
        assert(retained(log)[i] == log[oldest + i]);
    }
    lemma_filter_is_suffix(retained(log), oldest, after);
    let from = if after <= oldest {
        0
    } else if after - oldest > retained(log).len() {
        retained(log).len() as int
    } else {
        after - oldest
    };
    assert(retained(log).skip(from) =~= log.skip(start_after(log, after)));
}

/// At most so many events are kept, the latest; the first that is still there tells a reader what it missed.
pub proof fn law_retention_is_bounded_and_shows_the_gap(log: Seq<Event>)
    requires
        numbered(log),
        log.len() < u64::MAX,
    ensures
        retained(log).len() <= MAX_EVENTS,
        forall|i: int|
            0 <= i < log.len() ==> (retained(log).contains(#[trigger] log[i]) <==> log[i].sequence
                >= first_available(log)),
{
    let oldest = if log.len() <= MAX_EVENTS {
        0
    } else {
        log.len() - MAX_EVENTS
    };
    assert(retained(log) =~= log.skip(oldest));
    assert forall|i: int| 0 <= i < log.len() implies (retained(log).contains(#[trigger] log[i])
        <==> log[i].sequence >= first_available(log)) by {
        assert(retained(log)[0] == log[oldest]);
        if i >= oldest {
            assert(retained(log)[i - oldest] == log[i]);
        } else if retained(log).contains(log[i]) {
            let j = choose|j: int| 0 <= j < retained(log).len() && retained(log)[j] == log[i];
            assert(retained(log)[j] == log[oldest + j]);
        }
    }
}

/// A page is a stretch of the history: it begins after the number, or with the oldest event that is kept, and
/// holds all events from there on up to a full batch.
pub proof fn law_page_is_a_stretch_of_the_history(log: Seq<Event>, after: u64)
    requires
        numbered(log),
        log.len() < u64::MAX,
    ensures
        page(log, after) == log.subrange(
            start_after(log, after),
            if start_after(log, after) + MAX_BATCH_EVENTS < log.len() {
                start_after(log, after) + MAX_BATCH_EVENTS
            } else {
                log.len() as int
            },
        ),
{
    lemma_kept_after(log, after);
}

/// A reader that goes on from the last number of each page gets every kept event once and in order.
pub proof fn law_pages_lose_nothing(log: Seq<Event>, after: u64)
    requires
        numbered(log),
        log.len() < u64::MAX,
    ensures
        retained(log).filter(later_than(after)) == page(log, after) + retained(log).filter(
            later_than(last_of_page(log, after)),
        ),
        page(log, after).len() == 0 <==> retained(log).filter(later_than(after)).len() == 0,
{
    lemma_kept_after(log, after);
    lemma_kept_after(log, last_of_page(log, after));
    law_page_is_a_stretch_of_the_history(log, after);
    let from = start_after(log, after);
    let n = page(log, after).len();
    if n > 0 {
        assert(page(log, after).last() == log[from + n - 1]);
        assert(start_after(log, last_of_page(log, after)) == from + n);
    }
    assert(log.skip(from) =~= page(log, after) + log.skip(
        start_after(log, last_of_page(log, after)),
    ));
}

/// Recording keeps the numbers in order, and every kept event that still has room.
pub proof fn law_recording_keeps_the_history(
    log: Seq<Event>,
    observation: Observation,
    now_ms: u128,
)
    requires
        numbered(log),
    ensures
        numbered(recorded(log, observation, now_ms)),
        retained(recorded(log, observation, now_ms)) == if log.len() < MAX_EVENTS {
            log.push(recorded(log, observation, now_ms).last())
        } else {
            retained(log).skip(1).push(recorded(log, observation, now_ms).last())
        },
{
    let next = recorded(log, observation, now_ms);
    if log.len() >= MAX_EVENTS {
        assert(retained(next) =~= retained(log).skip(1).push(next.last()));
    }
}

/// An observation is added behind all others, as it was made and when it was, under the next number; the numbers count
/// from one.
pub proof fn law_observations_are_added_as_they_were_made(
    log: Seq<Event>,
    observation: Observation,
    now_ms: u128,
)
    ensures
        ({
            let next = recorded(log, observation, now_ms);
            let last = next[log.len() as int];
            &&& next.len() == log.len() + 1
            &&& forall|i: int| 0 <= i < log.len() ==> #[trigger] next[i] == log[i]
            &&& last.observation == observation
            &&& last.observed_at_ms == now_ms
            &&& log.len() < u64::MAX ==> last.sequence == log.len() + 1
        }),
{
}

/// What is kept are the latest events, all of them up to so many, in order.
pub proof fn law_the_latest_events_are_kept(log: Seq<Event>)
    ensures
        retained(log).len() == if log.len() < 256 {
            log.len()
        } else {
            256
        },
        forall|i: int|
            0 <= i < retained(log).len() ==> #[trigger] retained(log)[i] == log[log.len()
                - retained(log).len() + i],
{
}

/// A page holds exactly the next events after the number, as far as they are kept, up to a batch; a reader goes on from
/// the last of them, or where there is none from where it was, but not beyond the last event.
pub proof fn law_a_page_holds_the_next_events(log: Seq<Event>, after: u64, i: int)
    requires
        numbered(log),
        log.len() < u64::MAX,
        0 <= i < log.len(),
    ensures
        ({
            let oldest = if log.len() < 256 {
                0
            } else {
                log.len() - 256
            };
            let start = if after < oldest {
                oldest
            } else {
                after as int
            };
            &&& page(log, after).contains(log[i]) <==> start <= i < start + 16
            &&& first_available(log) == oldest + 1
            &&& start < log.len() ==> page(log, after).len() > 0 && last_of_page(log, after)
                == page(log, after).last().sequence
            &&& start >= log.len() ==> page(log, after).len() == 0 && last_of_page(log, after)
                == if after < log.len() {
                after as int
            } else {
                log.len() as int
            }
        }),
        forall|j: int, k: int|
            0 <= j < k < page(log, after).len() ==> (#[trigger] page(log, after)[j]).sequence < (
            #[trigger] page(log, after)[k]).sequence,
{
    law_page_is_a_stretch_of_the_history(log, after);
    let from = start_after(log, after);
    let shown = page(log, after);
    assert forall|j: int| 0 <= j < shown.len() implies #[trigger] shown[j] == log[from + j] by {}
    if shown.contains(log[i]) {
        let j = choose|j: int| 0 <= j < shown.len() && shown[j] == log[i];
        assert(log[from + j].sequence == from + j + 1);
        assert(log[i].sequence == i + 1);
    }
    if from <= i < from + 16 {
        assert(shown[i - from] == log[i]);
    }
    assert(retained(log)[0] == log[log.len() - retained(log).len()]);
}

/// Times are told in whole milliseconds, as far as there is room.
pub proof fn law_times_are_told_in_whole_milliseconds(nanos: nat)
    ensures
        nanos / 1_000_000 <= u64::MAX ==> capped_millis(nanos) * 1_000_000 <= nanos && nanos < (
        capped_millis(nanos) + 1) * 1_000_000,
        nanos / 1_000_000 > u64::MAX ==> capped_millis(nanos) == u64::MAX,
{
}

} // verus!
