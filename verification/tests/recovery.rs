use rust_mcp_gateway::policy::{Backoff, Circuit, Restart, RestartMode};
use rust_mcp_gateway::recovery::{backoff_delay, ChildRecovery, Policy, State};

fn policy() -> Policy {
    Policy {
        max_attempts: 3,
        stability_window_ms: 30_000,
        initial_backoff_ms: 500,
        max_backoff_ms: 30_000,
        cooldown_ms: 60_000,
    }
}

#[test]
fn bounded_backoff_opens_circuit_after_three_failures() {
    let mut recovery = ChildRecovery::default();
    recovery.failure(0, policy());
    assert_eq!(recovery.retry_at_ms(), Some(500));
    recovery.failure(500, policy());
    assert_eq!(recovery.retry_at_ms(), Some(1500));
    recovery.failure(1500, policy());
    assert_eq!(recovery.state(), State::CircuitOpen);
    assert_eq!(recovery.retry_at_ms(), Some(61_500));
}

#[test]
fn circuit_allows_one_half_open_attempt_after_cooldown() {
    let mut recovery = ChildRecovery::default();
    for now in [0, 500, 1500] {
        recovery.failure(now, policy());
    }
    assert!(!recovery.begin_due_recovery(61_499));
    assert!(recovery.begin_due_recovery(61_500));
    assert_eq!(recovery.state(), State::HalfOpen);
    assert!(!recovery.begin_due_recovery(61_500));
}

#[test]
fn only_stable_health_resets_failure_episode() {
    let mut recovery = ChildRecovery::default();
    recovery.failure(0, policy());
    recovery.promote_candidate(500);
    recovery.reset_if_stable(30_499, policy());
    assert_eq!(recovery.consecutive_failures(), 1);
    recovery.reset_if_stable(30_500, policy());
    assert_eq!(recovery.consecutive_failures(), 0);
}

#[test]
fn one_child_crash_loop_does_not_change_healthy_sibling_generation() {
    let mut failed_child = ChildRecovery::default();
    let mut healthy_sibling = ChildRecovery::default();
    failed_child.promote_candidate(0);
    healthy_sibling.promote_candidate(0);
    let sibling_generation = healthy_sibling.generation();

    for now in [1, 501, 1_501] {
        failed_child.failure(now, policy());
    }

    assert_eq!(failed_child.state(), State::CircuitOpen);
    assert_eq!(healthy_sibling.state(), State::Healthy);
    assert_eq!(healthy_sibling.generation(), sibling_generation);
    healthy_sibling.reset_if_stable(30_000, policy());
    assert_eq!(healthy_sibling.generation(), sibling_generation);
}

#[test]
fn delays_double_up_to_the_largest() {
    assert_eq!(backoff_delay(0, policy()), 500);
    assert_eq!(backoff_delay(1, policy()), 500);
    assert_eq!(backoff_delay(2, policy()), 1_000);
    assert_eq!(backoff_delay(6, policy()), 16_000);
    assert_eq!(backoff_delay(7, policy()), 30_000);
    assert_eq!(backoff_delay(usize::MAX, policy()), 30_000);
    let steep = Policy { initial_backoff_ms: u64::MAX, max_backoff_ms: u64::MAX, ..policy() };
    assert_eq!(backoff_delay(64, steep), u64::MAX);
}

#[test]
fn recovery_goes_by_the_restart_policy() {
    let restart = Restart {
        policy: RestartMode::OnFailure,
        max_attempts: 3,
        stability_window_ms: 30_000,
        backoff: Backoff { initial_ms: 500, max_ms: 30_000 },
        circuit: Circuit { cooldown_ms: 60_000, half_open_attempts: 1 },
    };
    assert_eq!(Policy::from(&restart), policy());
}

#[test]
fn a_half_open_attempt_that_fails_opens_the_circuit_again() {
    let mut recovery = ChildRecovery::default();
    for now in [0, 500, 1500] {
        recovery.failure(now, policy());
    }
    assert!(recovery.begin_due_recovery(61_500));
    recovery.failure(61_600, policy());
    assert_eq!(recovery.state(), State::CircuitOpen);
    assert_eq!(recovery.retry_at_ms(), Some(121_600));
}

#[test]
fn every_state_has_what_it_needs() {
    let mut recovery = ChildRecovery::default();
    assert_eq!(recovery.state(), State::Restarting);
    assert_eq!((recovery.retry_at_ms(), recovery.consecutive_failures()), (None, 0));
    for round in 1..=3 {
        for now in [0, 500, 1_500] {
            recovery.failure(now, policy());
            assert!(recovery.retry_at_ms().is_some() && recovery.consecutive_failures() > 0);
        }
        assert!(recovery.begin_due_recovery(61_500));
        assert_eq!(recovery.state(), State::HalfOpen);
        assert!(recovery.retry_at_ms().is_some() && recovery.consecutive_failures() > 0);
        recovery.promote_candidate(61_500);
        recovery.reset_if_stable(100_000, policy());
        assert_eq!(recovery.state(), State::Healthy);
        assert_eq!((recovery.retry_at_ms(), recovery.generation()), (None, round));
    }
}
