//! Recovery of one child: back off after failures, open the circuit after too many,
//! probe once after the cool-down, forget failures after stable health.
use crate::policy;
use vstd::arithmetic::power2::{lemma2_to64, lemma2_to64_rest, lemma_pow2_pos, lemma_pow2_strictly_increases, lemma_pow2_unfold, pow2};
use vstd::prelude::*;

verus! {

#[derive(Debug, Clone, Copy, PartialEq, Eq, Structural)]
pub enum State {
    Healthy,
    BackingOff,
    Restarting,
    CircuitOpen,
    HalfOpen,
}

/// What governs the recovery of one child.
#[derive(Debug, Clone, Copy, PartialEq, Eq, Structural)]
pub struct Policy {
    pub max_attempts: usize,
    pub stability_window_ms: u64,
    pub initial_backoff_ms: u64,
    pub max_backoff_ms: u64,
    pub cooldown_ms: u64,
}

/// The part of a restart policy that recovery goes by.
pub open spec fn policy_of(value: policy::Restart) -> Policy {
    Policy {
        max_attempts: value.max_attempts,
        stability_window_ms: value.stability_window_ms,
        initial_backoff_ms: value.backoff.initial_ms,
        max_backoff_ms: value.backoff.max_ms,
        cooldown_ms: value.circuit.cooldown_ms,
    }
}

impl From<&policy::Restart> for Policy {
    fn from(value: &policy::Restart) -> (r: Self) {
        Policy {
            max_attempts: value.max_attempts,
            stability_window_ms: value.stability_window_ms,
            initial_backoff_ms: value.backoff.initial_ms,
            max_backoff_ms: value.backoff.max_ms,
            cooldown_ms: value.circuit.cooldown_ms,
        }
    }
}

impl vstd::std_specs::convert::FromSpecImpl<&policy::Restart> for Policy {
    open spec fn obeys_from_spec() -> bool {
        true
    }

    open spec fn from_spec(value: &policy::Restart) -> Policy {
        policy_of(*value)
    }
}

/// The state of a recovery as plain values.
pub struct Recovery {
    pub generation: nat,
    pub consecutive_failures: nat,
    pub state: State,
    pub retry_at_ms: Option<u64>,
    pub healthy_since_ms: Option<u64>,
}

/// The sum, or the largest `u64` where the sum is larger.
pub open spec fn later(now_ms: u64, delay_ms: u64) -> u64 {
    if now_ms + delay_ms > u64::MAX {
        u64::MAX
    } else {
        (now_ms + delay_ms) as u64
    }
}

/// The number of doublings before the attempt.
pub open spec fn doublings(attempt: int) -> nat {
    if attempt <= 1 {
        0
    } else if attempt - 1 > 63 {
        63
    } else {
        (attempt - 1) as nat
    }
}

/// The delay before the attempt: the initial delay, doubled for each earlier attempt, up to the largest delay.
pub open spec fn delay(attempt: int, policy: Policy) -> int {
    let doubled = policy.initial_backoff_ms * pow2(doublings(attempt));
    if doubled < policy.max_backoff_ms {
        doubled as int
    } else {
        policy.max_backoff_ms as int
    }
}

impl Recovery {
    /// A child that has not been started yet.
    pub open spec fn initial() -> Recovery {
        Recovery {
            generation: 0,
            consecutive_failures: 0,
            state: State::Restarting,
            retry_at_ms: None,
            healthy_since_ms: None,
        }
    }

    pub open spec fn promoted(self, now_ms: u64) -> Recovery {
        Recovery {
            generation: self.generation + 1,
            consecutive_failures: self.consecutive_failures,
            state: State::Healthy,
            retry_at_ms: None,
            healthy_since_ms: Some(now_ms),
        }
    }

    /// Healthy for at least the stability window.
    pub open spec fn stable(self, now_ms: u64, policy: Policy) -> bool {
        &&& self.state == State::Healthy
        &&& self.healthy_since_ms matches Some(since) && (if now_ms < since {
            0
        } else {
            now_ms - since
        }) >= policy.stability_window_ms
    }

    pub open spec fn settled(self, now_ms: u64, policy: Policy) -> Recovery {
        if self.stable(now_ms, policy) {
            Recovery { consecutive_failures: 0, ..self }
        } else {
            self
        }
    }

    /// One more failure, as far as the count goes.
    pub open spec fn counted(self) -> nat {
        if self.consecutive_failures >= usize::MAX {
            usize::MAX as nat
        } else {
            self.consecutive_failures + 1
        }
    }

    pub open spec fn failed(self, now_ms: u64, policy: Policy) -> Recovery {
        let failures = self.counted();
        if failures >= policy.max_attempts {
            Recovery {
                generation: self.generation,
                consecutive_failures: failures,
                state: State::CircuitOpen,
                retry_at_ms: Some(later(now_ms, policy.cooldown_ms)),
                healthy_since_ms: None,
            }
        } else {
            Recovery {
                generation: self.generation,
                consecutive_failures: failures,
                state: State::BackingOff,
                retry_at_ms: Some(later(now_ms, delay(failures as int, policy) as u64)),
                healthy_since_ms: None,
            }
        }
    }

    /// Waiting, and the wait is over.
    pub open spec fn due(self, now_ms: u64) -> bool {
        &&& self.state == State::BackingOff || self.state == State::CircuitOpen
        &&& self.retry_at_ms matches Some(retry) && now_ms >= retry
    }

    pub open spec fn begun(self, now_ms: u64) -> Recovery {
        if !self.due(now_ms) {
            self
        } else if self.state == State::BackingOff {
            Recovery { state: State::Restarting, ..self }
        } else {
            Recovery { state: State::HalfOpen, ..self }
        }
    }

    /// The parts fit together: one that waits, or that was let through after a wait, has a retry time and a failure; a
    /// healthy one has a generation, is healthy since some time and has no retry time; one that is being started has
    /// a retry time if and only if it has failed before.
    pub open spec fn coherent(self) -> bool {
        match self.state {
            State::Healthy => {
                &&& self.generation >= 1
                &&& self.retry_at_ms is None
                &&& self.healthy_since_ms is Some
            },
            State::Restarting => {
                &&& self.retry_at_ms is Some <==> self.consecutive_failures > 0
                &&& self.healthy_since_ms is None
            },
            _ => {
                &&& self.consecutive_failures > 0
                &&& self.retry_at_ms is Some
                &&& self.healthy_since_ms is None
            },
        }
    }
}

/// What can happen to a recovery, with the time at which it does.
pub enum Turn {
    Promoted(u64),
    LookedAt(u64, Policy),
    Failed(u64, Policy),
    Begun(u64),
}

pub open spec fn turned(r: Recovery, turn: Turn) -> Recovery {
    match turn {
        Turn::Promoted(now_ms) => r.promoted(now_ms),
        Turn::LookedAt(now_ms, policy) => r.settled(now_ms, policy),
        Turn::Failed(now_ms, policy) => r.failed(now_ms, policy),
        Turn::Begun(now_ms) => r.begun(now_ms),
    }
}

/// The state of a recovery after the turns.
pub open spec fn after_turns(turns: Seq<Turn>) -> Recovery
    decreases turns.len(),
{
    if turns.len() == 0 {
        Recovery::initial()
    } else {
        turned(after_turns(turns.drop_last()), turns.last())
    }
}

pub open spec fn promotions(turns: Seq<Turn>) -> nat
    decreases turns.len(),
{
    if turns.len() == 0 {
        0
    } else {
        promotions(turns.drop_last()) + if turns.last() is Promoted {
            1nat
        } else {
            0nat
        }
    }
}

/// Whatever happens to a recovery, its parts fit together: one that waits has a retry time and a failure, a healthy one
/// has a generation and no retry time. The generation is the number of promotions.
pub proof fn law_reachable_states_are_coherent(turns: Seq<Turn>)
    ensures
        after_turns(turns).coherent(),
        after_turns(turns).generation == promotions(turns),
    decreases turns.len(),
{
    if turns.len() > 0 {
        law_reachable_states_are_coherent(turns.drop_last());
    }
}

#[derive(Debug, Clone, Copy)]
pub struct ChildRecovery {
    generation: u64,
    consecutive_failures: usize,
    state: State,
    retry_at_ms: Option<u64>,
    healthy_since_ms: Option<u64>,
}

impl ChildRecovery {
    #[verifier::type_invariant]
    spec fn fits_together(self) -> bool {
        self@.coherent()
    }
}

impl View for ChildRecovery {
    type V = Recovery;

    closed spec fn view(&self) -> Recovery {
        Recovery {
            generation: self.generation as nat,
            consecutive_failures: self.consecutive_failures as nat,
            state: self.state,
            retry_at_ms: self.retry_at_ms,
            healthy_since_ms: self.healthy_since_ms,
        }
    }
}

impl Default for ChildRecovery {
    fn default() -> (r: Self)
        ensures
            r@ == Recovery::initial(),
    {
        ChildRecovery {
            generation: 0,
            consecutive_failures: 0,
            state: State::Restarting,
            retry_at_ms: None,
            healthy_since_ms: None,
        }
    }
}

impl ChildRecovery {
    pub fn generation(&self) -> (r: u64)
        ensures
            r == self@.generation,
            self@.coherent(),
    {
        proof {
            use_type_invariant(self);
        }
        self.generation
    }

    pub fn state(&self) -> (r: State)
        ensures
            r == self@.state,
            self@.coherent(),
    {
        proof {
            use_type_invariant(self);
        }
        self.state
    }

    pub fn consecutive_failures(&self) -> (r: usize)
        ensures
            r == self@.consecutive_failures,
            self@.coherent(),
    {
        proof {
            use_type_invariant(self);
        }
        self.consecutive_failures
    }

    pub fn retry_at_ms(&self) -> (r: Option<u64>)
        ensures
            r == self@.retry_at_ms,
            self@.coherent(),
    {
        proof {
            use_type_invariant(self);
        }
        self.retry_at_ms
    }

    /// The child runs: a new generation, healthy from now on.
    pub fn promote_candidate(&mut self, now_ms: u64)
        requires
            old(self)@.generation < u64::MAX,
        ensures
            final(self)@ == old(self)@.promoted(now_ms),
    {
        *self = ChildRecovery {
            generation: self.generation + 1,
            consecutive_failures: self.consecutive_failures,
            state: State::Healthy,
            retry_at_ms: None,
            healthy_since_ms: Some(now_ms),
        };
    }

    /// Forgets earlier failures once health has lasted for the stability window.
    pub fn reset_if_stable(&mut self, now_ms: u64, policy: Policy)
        ensures
            final(self)@ == old(self)@.settled(now_ms, policy),
    {
        proof {
            use_type_invariant(&*self);
        }
        if self.state == State::Healthy {
            if let Some(since) = self.healthy_since_ms {
                if now_ms.saturating_sub(since) >= policy.stability_window_ms {
                    self.consecutive_failures = 0;
                }
            }
        }
    }

    /// A failure: back off, or open the circuit after the last attempt.
    pub fn failure(&mut self, now_ms: u64, policy: Policy)
        ensures
            final(self)@ == old(self)@.failed(now_ms, policy),
    {
        let failures: usize = self.consecutive_failures.saturating_add(1);
        let (state, wait) = if failures >= policy.max_attempts {
            (State::CircuitOpen, policy.cooldown_ms)
        } else {
            (State::BackingOff, backoff_delay(failures, policy))
        };
        *self = ChildRecovery {
            generation: self.generation,
            consecutive_failures: failures,
            state,
            retry_at_ms: Some(now_ms.saturating_add(wait)),
            healthy_since_ms: None,
        };
    }

    /// Starts the attempt that is due, if one is.
    pub fn begin_due_recovery(&mut self, now_ms: u64) -> (r: bool)
        ensures
            r == old(self)@.due(now_ms),
            final(self)@ == old(self)@.begun(now_ms),
    {
        proof {
            use_type_invariant(&*self);
        }
        let waited = match self.retry_at_ms {
            Some(retry) => now_ms >= retry,
            None => false,
        };
        match self.state {
            State::BackingOff => {
                if waited {
                    self.state = State::Restarting;
                }
                waited
            },
            State::CircuitOpen => {
                if waited {
                    self.state = State::HalfOpen;
                }
                waited
            },
            _ => false,
        }
    }
}

/// The delay before the given attempt, counted from one.
pub fn backoff_delay(attempt: usize, policy: Policy) -> (r: u64)
    ensures
        r == delay(attempt as int, policy),
{
    let earlier: usize = attempt.saturating_sub(1);
    let exponent: usize = if earlier > 63 { 63 } else { earlier };
    let mut factor: u64 = 1;
    let mut i: usize = 0;
    proof {
        lemma2_to64();
        lemma2_to64_rest();
    }
    while i < exponent
        invariant
            i <= exponent <= 63,
            factor == pow2(i as nat),
        decreases exponent - i,
    {
        proof {
            lemma_pow2_unfold((i + 1) as nat);
            lemma2_to64_rest();
            if i + 1 < 63 {
                lemma_pow2_strictly_increases((i + 1) as nat, 63);
            }
        }
        factor = factor * 2;
        i = i + 1;
    }
    match policy.initial_backoff_ms.checked_mul(factor) {
        Some(doubled) => {
            if doubled < policy.max_backoff_ms {
                doubled
            } else {
                policy.max_backoff_ms
            }
        },
        None => policy.max_backoff_ms,
    }
}

/// The delay never exceeds the largest delay of the policy.
pub proof fn law_delay_is_bounded(attempt: int, policy: Policy)
    ensures
        0 <= delay(attempt, policy) <= policy.max_backoff_ms,
{
    lemma_pow2_pos(doublings(attempt));
    assert(policy.initial_backoff_ms * pow2(doublings(attempt)) >= 0) by (nonlinear_arith)
        requires
            policy.initial_backoff_ms >= 0,
            pow2(doublings(attempt)) > 0,
    ;
}

/// A later attempt never waits less than an earlier one.
pub proof fn law_delay_never_shrinks(earlier: int, attempt: int, policy: Policy)
    requires
        earlier <= attempt,
    ensures
        delay(earlier, policy) <= delay(attempt, policy),
{
    let a = doublings(earlier);
    let b = doublings(attempt);
    assert(pow2(a) <= pow2(b)) by {
        if a < b {
            lemma_pow2_strictly_increases(a, b);
        }
    }
    assert(policy.initial_backoff_ms * pow2(a) <= policy.initial_backoff_ms * pow2(b))
        by (nonlinear_arith)
        requires
            policy.initial_backoff_ms >= 0,
            pow2(a) <= pow2(b),
    ;
}

/// The state after a run of failures at the given times, with nothing in between.
pub open spec fn after_failures(start: Recovery, times: Seq<u64>, policy: Policy) -> Recovery
    decreases times.len(),
{
    if times.len() == 0 {
        start
    } else {
        after_failures(start, times.drop_last(), policy).failed(times.last(), policy)
    }
}

/// A run of failures opens the circuit with the failure that makes up the allowed number, and not before;
/// and failures leave the generation alone.
pub proof fn law_circuit_opens_after_max_attempts(
    start: Recovery,
    times: Seq<u64>,
    policy: Policy,
)
    requires
        start.consecutive_failures + times.len() <= usize::MAX,
    ensures
        after_failures(start, times, policy).consecutive_failures == start.consecutive_failures
            + times.len(),
        after_failures(start, times, policy).generation == start.generation,
        times.len() > 0 ==> after_failures(start, times, policy).state == (if start.consecutive_failures
            + times.len() >= policy.max_attempts {
            State::CircuitOpen
        } else {
            State::BackingOff
        }),
    decreases times.len(),
{
    if times.len() > 0 {
        law_circuit_opens_after_max_attempts(start, times.drop_last(), policy);
    }
}

/// An open circuit lets one attempt through once the cool-down has passed, none before, and no second
/// one until that attempt has failed or the child runs again.
pub proof fn law_one_half_open_attempt(r: Recovery, failed_at: u64, policy: Policy, now_ms: u64, again_ms: u64)
    requires
        r.counted() >= policy.max_attempts,
    ensures
        ({
            let open = r.failed(failed_at, policy);
            let probing = open.begun(now_ms);
            &&& open.state == State::CircuitOpen
            &&& open.due(now_ms) <==> now_ms >= later(failed_at, policy.cooldown_ms)
            &&& !open.due(now_ms) ==> probing == open
            &&& open.due(now_ms) ==> probing.state == State::HalfOpen && !probing.due(again_ms)
                && probing.begun(again_ms) == probing
        }),
{
}

/// Only health that has lasted for the stability window clears the failure count: a promotion keeps it,
/// and after one the count is cleared exactly when the window has passed.
pub proof fn law_only_stable_health_clears_failures(
    r: Recovery,
    promoted_ms: u64,
    now_ms: u64,
    policy: Policy,
)
    requires
        promoted_ms <= now_ms,
    ensures
        r.promoted(promoted_ms).consecutive_failures == r.consecutive_failures,
        r.promoted(promoted_ms).settled(now_ms, policy).consecutive_failures == (if now_ms
            - promoted_ms >= policy.stability_window_ms {
            0
        } else {
            r.consecutive_failures
        }),
{
}

/// Nothing but a promotion changes the generation, and a promotion raises it by one.
pub proof fn law_generation_counts_promotions(r: Recovery, now_ms: u64, policy: Policy)
    ensures
        r.promoted(now_ms).generation == r.generation + 1,
        r.failed(now_ms, policy).generation == r.generation,
        r.settled(now_ms, policy).generation == r.generation,
        r.begun(now_ms).generation == r.generation,
{
}

/// A child that runs is of the next generation, healthy from now on and waits for nothing; its failures stay counted.
pub proof fn law_promotion_starts_a_healthy_generation(r: Recovery, now_ms: u64)
    ensures
        r.promoted(now_ms).generation == r.generation + 1,
        r.promoted(now_ms).state == State::Healthy,
        r.promoted(now_ms).retry_at_ms is None,
        r.promoted(now_ms).healthy_since_ms == Some(now_ms),
        r.promoted(now_ms).consecutive_failures == r.consecutive_failures,
        Recovery::initial().generation == 0,
        Recovery::initial().consecutive_failures == 0,
        Recovery::initial().state == State::Restarting,
        Recovery::initial().retry_at_ms is None,
        Recovery::initial().healthy_since_ms is None,
{
}

/// A failure is counted once, ends health, and brings a wait: for the cool-down with an open circuit where the count has
/// reached the allowed attempts, otherwise for the delay of the attempt that is next. The wait counts from the failure.
pub proof fn law_a_failure_brings_a_wait(r: Recovery, now_ms: u64, policy: Policy)
    requires
        r.consecutive_failures < usize::MAX,
    ensures
        ({
            let failures = r.consecutive_failures + 1;
            let failed = r.failed(now_ms, policy);
            let wait = if failures >= policy.max_attempts {
                policy.cooldown_ms as int
            } else {
                delay(failures as int, policy)
            };
            &&& failed.consecutive_failures == failures
            &&& failed.generation == r.generation
            &&& failed.healthy_since_ms is None
            &&& failures >= policy.max_attempts ==> failed.state == State::CircuitOpen
            &&& failures < policy.max_attempts ==> failed.state == State::BackingOff
            &&& now_ms + wait <= u64::MAX ==> failed.retry_at_ms == Some((now_ms + wait) as u64)
            &&& now_ms + wait > u64::MAX ==> failed.retry_at_ms == Some(u64::MAX)
        }),
{
    law_delay_is_bounded(r.consecutive_failures as int + 1, policy);
}

/// The first delay is the initial one, and each is twice the last, up to the largest.
pub proof fn law_delays_double(attempt: int, policy: Policy)
    requires
        1 <= attempt < 64,
    ensures
        delay(1, policy) == if policy.initial_backoff_ms < policy.max_backoff_ms {
            policy.initial_backoff_ms as int
        } else {
            policy.max_backoff_ms as int
        },
        delay(attempt + 1, policy) == if 2 * delay(attempt, policy) < policy.max_backoff_ms {
            2 * delay(attempt, policy)
        } else {
            policy.max_backoff_ms as int
        },
{
    lemma2_to64();
    let n = doublings(attempt);
    lemma_pow2_unfold(n + 1);
    assert(doublings(attempt + 1) == n + 1);
    assert(policy.initial_backoff_ms * pow2(n + 1) == 2 * (policy.initial_backoff_ms * pow2(n)))
        by (nonlinear_arith)
        requires
            pow2(n + 1) == 2 * pow2(n),
    ;
    assert(policy.initial_backoff_ms * pow2(0) == policy.initial_backoff_ms) by (nonlinear_arith)
        requires
            pow2(0) == 1,
    ;
}

/// A wait is over exactly from its retry time on; then its attempt begins, after a back-off as a restart and after an
/// open circuit as a probe, and nothing else changes. Nothing begins in any other state.
pub proof fn law_an_attempt_begins_when_its_wait_is_over(r: Recovery, now_ms: u64)
    ensures
        r.due(now_ms) <==> (r.state == State::BackingOff || r.state == State::CircuitOpen) && (
        r.retry_at_ms is Some && now_ms >= r.retry_at_ms->0),
        !r.due(now_ms) ==> r.begun(now_ms) == r,
        r.due(now_ms) ==> {
            let begun = r.begun(now_ms);
            &&& r.state == State::BackingOff ==> begun.state == State::Restarting
            &&& r.state == State::CircuitOpen ==> begun.state == State::HalfOpen
            &&& begun.generation == r.generation
            &&& begun.consecutive_failures == r.consecutive_failures
            &&& begun.retry_at_ms == r.retry_at_ms
            &&& begun.healthy_since_ms == r.healthy_since_ms
        },
{
}

/// Failures are forgotten exactly where the child is healthy and has been for the stability window, and nothing else
/// changes then.
pub proof fn law_failures_are_forgotten_after_the_window(r: Recovery, now_ms: u64, policy: Policy)
    ensures
        ({
            let settled = r.settled(now_ms, policy);
            &&& settled.generation == r.generation
            &&& settled.state == r.state
            &&& settled.retry_at_ms == r.retry_at_ms
            &&& settled.healthy_since_ms == r.healthy_since_ms
            &&& if r.state == State::Healthy && r.healthy_since_ms is Some && (now_ms
                >= r.healthy_since_ms->0 + policy.stability_window_ms || (
            policy.stability_window_ms == 0)) {
                settled.consecutive_failures == 0
            } else {
                settled.consecutive_failures == r.consecutive_failures
            }
        }),
{
}

/// Recovery goes by the restart policy's own numbers.
pub proof fn law_recovery_takes_the_restart_policy_over(value: policy::Restart)
    ensures
        policy_of(value).max_attempts == value.max_attempts,
        policy_of(value).stability_window_ms == value.stability_window_ms,
        policy_of(value).initial_backoff_ms == value.backoff.initial_ms,
        policy_of(value).max_backoff_ms == value.backoff.max_ms,
        policy_of(value).cooldown_ms == value.circuit.cooldown_ms,
{
}

} // verus!
