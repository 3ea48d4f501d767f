//! What is watched: children that have stopped, and configurations that have changed.
use crate::catalog::{ChildEntry, RunningChild};
use crate::config::RestartPolicy;
use crate::config_files::{changed, CommandState, ConfigSignature};
use crate::name_map::{NameMap, NameSet};
use crate::recovery::State;
use crate::reload::reusable;
use crate::span::Span;
use crate::telemetry::{Observation, RecoveryState};
use vstd::prelude::*;

verus! {

/// The shortest and the longest time in milliseconds between two looks.
pub const MIN_WATCH_INTERVAL_MS: u64 = 250;

pub const MAX_WATCH_INTERVAL_MS: u64 = 60_000;

/// What comes of a look at a child: whether it is to be started again now, how it is after that, and which state of
/// recovery it has come to, if that is noted.
#[verifier::ext_equal]
pub struct Look {
    pub due: bool,
    pub child: RunningChild,
    pub noted: Option<RecoveryState>,
}

/// The states of recovery that are noted.
pub open spec fn noted_state(state: State) -> Option<RecoveryState> {
    match state {
        State::Restarting => Some(RecoveryState::Restarting),
        State::CircuitOpen => Some(RecoveryState::CircuitOpen),
        State::HalfOpen => Some(RecoveryState::HalfOpen),
        State::Healthy | State::BackingOff => None,
    }
}

/// A look at a child. One that has stopped and is to be restarted is due at once where no policy governs its
/// recovery; where one does, its failure is counted first, and it is due when its wait is over.
pub open spec fn look(child: RunningChild, closed: bool, now_ms: u64) -> Look {
    if child.config.restart.policy != RestartPolicy::OnFailure || !closed {
        Look { due: false, child, noted: None }
    } else {
        match child.recovery_policy {
            None => Look { due: true, child, noted: None },
            Some(policy) => {
                let settled = child.recovery.settled(now_ms, policy);
                let failed = if settled.state == State::Healthy {
                    settled.failed(now_ms, policy)
                } else {
                    settled
                };
                let begun = failed.begun(now_ms);
                Look {
                    due: failed.due(now_ms),
                    child: RunningChild { recovery: begun, ..child },
                    noted: if begun.state != settled.state {
                        noted_state(begun.state)
                    } else {
                        None
                    },
                }
            },
        }
    }
}

/// A state of recovery that a child has come to.
#[verifier::ext_equal]
pub struct Sighting {
    pub child: Seq<char>,
    pub state: RecoveryState,
    pub generation: nat,
}

pub open spec fn sighted(look: Look) -> Seq<Sighting> {
    match look.noted {
        None => Seq::empty(),
        Some(state) => seq![
            Sighting {
                child: look.child.config.name,
                state,
                generation: look.child.recovery.generation,
            },
        ],
    }
}

/// What comes of a look at the children one after the other, which ends at the first that is due.
#[verifier::ext_equal]
pub struct Round {
    pub due: bool,
    pub children: Seq<RunningChild>,
    pub sightings: Seq<Sighting>,
}

pub open spec fn round(
    entries: Seq<(Seq<char>, RunningChild)>,
    closed: Set<Seq<char>>,
    now_ms: u64,
) -> Round
    decreases entries.len(),
{
    if entries.len() == 0 {
        Round { due: false, children: Seq::empty(), sightings: Seq::empty() }
    } else {
        let before = round(entries.drop_last(), closed, now_ms);
        if before.due {
            Round { children: before.children.push(entries.last().1), ..before }
        } else {
            let last = look(entries.last().1, closed.contains(entries.last().0), now_ms);
            Round {
                due: last.due,
                children: before.children.push(last.child),
                sightings: before.sightings + sighted(last),
            }
        }
    }
}

pub open spec fn viewed(entries: Seq<(Seq<char>, ChildEntry)>) -> Seq<(Seq<char>, RunningChild)> {
    entries.map_values(|entry: (Seq<char>, ChildEntry)| (entry.0, entry.1@))
}

pub open spec fn is_sighting(observation: Observation, sighting: Sighting) -> bool {
    observation matches Observation::ChildRecovery { child, state, generation } && child@
        == sighting.child && state == sighting.state && generation == sighting.generation
}

pub open spec fn are_sightings(observations: Seq<Observation>, sightings: Seq<Sighting>) -> bool {
    &&& observations.len() == sightings.len()
    &&& forall|i: int|
        0 <= i < sightings.len() ==> is_sighting(#[trigger] observations[i], sightings[i])
}

fn look_at(child: &mut ChildEntry, closed: bool, now_ms: u64) -> (r: (bool, Option<RecoveryState>))
    ensures
        ({
            let seen = look(old(child)@, closed, now_ms);
            r.0 == seen.due && r.1 == seen.noted && final(child)@ == seen.child
        }),
{
    if child.config.restart.policy != RestartPolicy::OnFailure || !closed {
        return (false, None);
    }
    let policy = match child.recovery_policy {
        None => {
            return (true, None);
        },
        Some(policy) => policy,
    };
    let ghost start = child@;
    let mut recovery = child.recovery;
    recovery.reset_if_stable(now_ms, policy);
    let before = recovery.state();
    if before == State::Healthy {
        recovery.failure(now_ms, policy);
    }
    let due = recovery.begin_due_recovery(now_ms);
    let after = recovery.state();
    child.recovery = recovery;
    assert(child@ =~= look(start, closed, now_ms).child);
    let noted = if after != before {
        match after {
            State::Restarting => Some(RecoveryState::Restarting),
            State::CircuitOpen => Some(RecoveryState::CircuitOpen),
            State::HalfOpen => Some(RecoveryState::HalfOpen),
            State::Healthy | State::BackingOff => None,
        }
    } else {
        None
    };
    (due, noted)
}

/// Looks at the children one after the other, up to the first that is to be started again now. `closed` are those
/// that have stopped. Tells whether there is one, and what is noted.
pub fn look_at_children(
    children: &mut NameMap<ChildEntry>,
    closed: &NameSet,
    now_ms: u64,
) -> (r: (bool, Vec<Observation>))
    ensures
        ({
            let seen = round(viewed(old(children).listing()), closed@, now_ms);
            &&& r.0 == seen.due
            &&& are_sightings(r.1@, seen.sightings)
            &&& final(children).listing().len() == old(children).listing().len()
            &&& forall|i: int|
                0 <= i < final(children).listing().len() ==> (
                #[trigger] final(children).listing()[i]).0 == old(children).listing()[i].0
                    && final(children).listing()[i].1@ == seen.children[i]
        }),
{
    let n: usize = children.len();
    let ghost all = viewed(children.listing());
    let ghost start = children.listing();
    let mut observations: Vec<Observation> = Vec::new();
    let mut found = false;
    let mut i: usize = 0;
    while i < n && !found
        invariant
            i <= n,
            n == start.len(),
            start == old(children).listing(),
            all == viewed(start),
            children.listing().len() == n,
            found == round(all.take(i as int), closed@, now_ms).due,
            are_sightings(
                observations@,
                round(all.take(i as int), closed@, now_ms).sightings,
            ),
            round(all.take(i as int), closed@, now_ms).children.len() == i,
            forall|j: int|
                0 <= j < n ==> (#[trigger] children.listing()[j]).0 == start[j].0,
            forall|j: int|
                0 <= j < i ==> (#[trigger] children.listing()[j]).1@ == round(
                    all.take(i as int),
                    closed@,
                    now_ms,
                ).children[j],
            forall|j: int| i <= j < n ==> (#[trigger] children.listing()[j]) == start[j],
        decreases n - i,
    {
        let ghost before = round(all.take(i as int), closed@, now_ms);
        let ghost entries = children.listing();
        let is_closed = closed.contains(children.key_at(i));
        let mut child = children.value_at(i).clone();
        let ghost was = child@;
        let (due, noted) = look_at(&mut child, is_closed, now_ms);
        if let Some(state) = noted {
            observations.push(
                Observation::ChildRecovery {
                    child: child.config.name.clone(),
                    state,
                    generation: child.recovery.generation(),
                },
            );
        }
        let ghost now = child@;
        children.replace_at(i, child);
        found = due;
        proof {
            assert(all.take(i + 1).drop_last() =~= all.take(i as int));
            assert(entries[i as int] == start[i as int]);
            assert(all.take(i + 1).last() == (start[i as int].0, was));
            let after = round(all.take(i + 1), closed@, now_ms);
            assert(after.children =~= before.children.push(now));
        }
        i = i + 1;
    }
    proof {
        lemma_round_ends(all, closed@, now_ms, i as int);
    }
    (found, observations)
}

proof fn lemma_round_ends(
    entries: Seq<(Seq<char>, RunningChild)>,
    closed: Set<Seq<char>>,
    now_ms: u64,
    n: int,
)
    requires
        0 <= n <= entries.len(),
        n == entries.len() || round(entries.take(n), closed, now_ms).due,
        round(entries.take(n), closed, now_ms).children.len() == n,
    ensures
        ({
            let part = round(entries.take(n), closed, now_ms);
            let all = round(entries, closed, now_ms);
            &&& all.due == part.due
            &&& all.sightings == part.sightings
            &&& all.children.len() == entries.len()
            &&& forall|j: int| 0 <= j < n ==> #[trigger] all.children[j] == part.children[j]
            &&& forall|j: int|
                n <= j < entries.len() ==> #[trigger] all.children[j] == entries[j].1
        }),
    decreases entries.len() - n,
{
    if n == entries.len() {
        assert(entries.take(n) =~= entries);
    } else {
        assert(entries.take(n + 1).drop_last() =~= entries.take(n));
        lemma_round_ends(entries, closed, now_ms, n + 1);
        let part = round(entries.take(n), closed, now_ms);
        let next = round(entries.take(n + 1), closed, now_ms);
        assert(next.children =~= part.children.push(entries[n].1));
    }
}

/// Why the catalog is to be drawn up anew, if it is.
pub fn reload_reason(configs_changed: bool, dead_child: bool) -> (r: Option<&'static str>)
    ensures
        r is Some <==> configs_changed || dead_child,
        r matches Some(reason) ==> reason@ == if configs_changed && dead_child {
            "config changed and child stopped"@
        } else if configs_changed {
            "config changed"@
        } else {
            "child stopped"@
        },
{
    if configs_changed {
        if dead_child {
            Some("config changed and child stopped")
        } else {
            Some("config changed")
        }
    } else if dead_child {
        Some("child stopped")
    } else {
        None
    }
}

/// The signature of the configuration that is remembered after a reload was called for. `renewed` is the signature that
/// was found after it: it takes the place of the last one only where the reload succeeded.
pub fn remembered_signature(
    last: Option<ConfigSignature>,
    renewed: Option<ConfigSignature>,
    reloaded: bool,
) -> (r: Option<ConfigSignature>)
    ensures
        r == if reloaded {
            renewed
        } else {
            last
        },
{
    if reloaded {
        renewed
    } else {
        last
    }
}

/// A look at the configuration and the children: the signature that was found, whether a child is to be started again,
/// whether the reload succeeded if one was called for, and the signature that was found after it.
pub struct Watch {
    pub signature: Option<ConfigSignature>,
    pub dead_child: bool,
    pub reloaded: bool,
    pub renewed: Option<ConfigSignature>,
}

/// The look calls for a reload, where `last` is the signature that is remembered.
pub open spec fn calls_for_reload(last: Option<ConfigSignature>, look: Watch) -> bool {
    changed(last, look.signature) || look.dead_child
}

/// The signature that is remembered after the looks.
pub open spec fn remembered_after(
    first: Option<ConfigSignature>,
    looks: Seq<Watch>,
) -> Option<ConfigSignature>
    decreases looks.len(),
{
    if looks.len() == 0 {
        first
    } else {
        let last = remembered_after(first, looks.drop_last());
        if calls_for_reload(last, looks.last()) && looks.last().reloaded {
            looks.last().renewed
        } else {
            last
        }
    }
}

/// A change of the configuration is seen at each look until a reload succeeds.
pub proof fn law_changes_are_seen_until_a_reload_succeeds(
    first: Option<ConfigSignature>,
    looks: Seq<Watch>,
    next: Watch,
)
    requires
        forall|i: int| 0 <= i < looks.len() ==> !(#[trigger] looks[i]).reloaded,
        changed(first, next.signature),
    ensures
        remembered_after(first, looks) == first,
        calls_for_reload(remembered_after(first, looks), next),
    decreases looks.len(),
{
    if looks.len() > 0 {
        let rest = looks.drop_last();
        assert(!looks[looks.len() - 1].reloaded);
        assert forall|i: int| 0 <= i < rest.len() implies !(#[trigger] rest[i]).reloaded by {
            assert(rest[i] == looks[i]);
        }
        law_changes_are_seen_until_a_reload_succeeds(first, rest, next);
    }
}

/// After a reload that succeeded, the configuration that was found after it calls for no other.
pub proof fn law_a_reload_settles_its_change(
    first: Option<ConfigSignature>,
    looks: Seq<Watch>,
    next: Watch,
)
    requires
        looks.len() > 0,
        calls_for_reload(remembered_after(first, looks.drop_last()), looks.last()),
        looks.last().reloaded,
        !changed(looks.last().renewed, next.signature),
        !next.dead_child,
    ensures
        !calls_for_reload(remembered_after(first, looks), next),
{
}

/// The time between two looks: as asked for, within bounds.
pub fn watch_interval(asked_ms: u64) -> (r: Span)
    ensures
        r@ == 1_000_000 * if asked_ms < MIN_WATCH_INTERVAL_MS {
            MIN_WATCH_INTERVAL_MS as nat
        } else if asked_ms > MAX_WATCH_INTERVAL_MS {
            MAX_WATCH_INTERVAL_MS as nat
        } else {
            asked_ms as nat
        },
        250_000_000 <= r@ <= 60_000_000_000,
        250 <= asked_ms <= 60_000 ==> r@ == asked_ms * 1_000_000,
{
    let millis: u64 = if asked_ms < MIN_WATCH_INTERVAL_MS {
        MIN_WATCH_INTERVAL_MS
    } else if asked_ms > MAX_WATCH_INTERVAL_MS {
        MAX_WATCH_INTERVAL_MS
    } else {
        asked_ms
    };
    Span::from_millis(millis)
}

/// A child that can be reached, or that is never to be restarted, is left as it is and is not due.
pub proof fn law_healthy_children_are_left_alone(child: RunningChild, closed: bool, now_ms: u64)
    requires
        !closed || child.config.restart.policy == RestartPolicy::Never,
    ensures
        look(child, closed, now_ms) == (Look { due: false, child, noted: None }),
{
}

/// One child's crashes change no other child: a round changes a child only by the look at that child.
pub proof fn law_a_round_keeps_children_apart(
    entries: Seq<(Seq<char>, RunningChild)>,
    closed: Set<Seq<char>>,
    now_ms: u64,
    i: int,
)
    requires
        0 <= i < entries.len(),
    ensures
        round(entries, closed, now_ms).children.len() == entries.len(),
        round(entries, closed, now_ms).children[i] == entries[i].1 || round(
            entries,
            closed,
            now_ms,
        ).children[i] == look(entries[i].1, closed.contains(entries[i].0), now_ms).child,
    decreases entries.len(),
{
    let rest = entries.drop_last();
    if rest.len() > 0 {
        law_a_round_keeps_children_apart(
            rest,
            closed,
            now_ms,
            if i < rest.len() {
                i
            } else {
                0
            },
        );
    }
    assert(round(rest, closed, now_ms).children.len() == rest.len());
    if i < rest.len() {
        assert(rest[i] == entries[i]);
    }
}

/// A child that is due under a policy has stopped, is to be restarted, and is in its attempt from then on.
pub proof fn law_due_children_begin_their_attempt(child: RunningChild, closed: bool, now_ms: u64)
    requires
        child.recovery_policy is Some,
        look(child, closed, now_ms).due,
    ensures
        closed,
        child.config.restart.policy == RestartPolicy::OnFailure,
        look(child, closed, now_ms).child.recovery.state == State::Restarting || look(
            child,
            closed,
            now_ms,
        ).child.recovery.state == State::HalfOpen,
{
}

/// A child that is to be restarted and has stopped is started again: at once where no policy governs its recovery,
/// otherwise at the first look after the wait that its failure brought. It is not taken over as it is meanwhile.
pub proof fn law_stopped_children_are_started_again(
    child: RunningChild,
    signature: Option<CommandState>,
    children: Map<Seq<char>, RunningChild>,
    now_ms: u64,
    again_ms: u64,
)
    requires
        child.config.restart.policy == RestartPolicy::OnFailure,
    ensures
        !reusable(children, child.config, signature, true),
        child.recovery_policy is None ==> look(child, true, now_ms).due,
        child.recovery_policy is Some && child.recovery.state == State::Healthy && !look(
            child,
            true,
            now_ms,
        ).due ==> {
            let waiting = look(child, true, now_ms).child;
            &&& waiting.recovery.retry_at_ms is Some
            &&& look(waiting, true, again_ms).due <==> again_ms >= waiting.recovery.retry_at_ms->0
        },
{
}

/// A look changes nothing of a child but its recovery, and that only where the child has stopped, is to be restarted
/// and is governed by a policy: a healthy one fails once, after its failures were forgotten where they are to be; one
/// that waits begins its attempt when the wait is over; one whose attempt is under way is left alone.
pub proof fn law_a_look_goes_by_the_state_of_recovery(
    child: RunningChild,
    closed: bool,
    now_ms: u64,
)
    ensures
        ({
            let seen = look(child, closed, now_ms);
            let is = seen.child.recovery;
            let was = child.recovery;
            &&& seen.child.config == child.config
            &&& seen.child.command_signature == child.command_signature
            &&& seen.child.tools == child.tools
            &&& seen.child.recovery_policy == child.recovery_policy
            &&& is.generation == was.generation
            &&& !closed || child.config.restart.policy == RestartPolicy::Never ==> !seen.due && is
                == was && seen.noted is None
            &&& closed && child.config.restart.policy == RestartPolicy::OnFailure
                && child.recovery_policy is None ==> seen.due && is == was && seen.noted is None
            &&& closed && child.config.restart.policy == RestartPolicy::OnFailure ==> {
                child.recovery_policy matches Some(policy) ==> match was.state {
                    State::Healthy => {
                        let failed = was.settled(now_ms, policy).failed(now_ms, policy);
                        &&& seen.due <==> failed.retry_at_ms is Some && now_ms
                            >= failed.retry_at_ms->0
                        &&& is.consecutive_failures == failed.consecutive_failures
                        &&& is.retry_at_ms == failed.retry_at_ms
                        &&& !seen.due ==> is.state == failed.state
                        &&& seen.due && failed.state == State::BackingOff ==> is.state
                            == State::Restarting
                        &&& seen.due && failed.state == State::CircuitOpen ==> is.state
                            == State::HalfOpen
                    },
                    State::BackingOff => {
                        &&& seen.due <==> was.retry_at_ms is Some && now_ms >= was.retry_at_ms->0
                        &&& is.consecutive_failures == was.consecutive_failures
                        &&& is.state == if seen.due {
                            State::Restarting
                        } else {
                            State::BackingOff
                        }
                    },
                    State::CircuitOpen => {
                        &&& seen.due <==> was.retry_at_ms is Some && now_ms >= was.retry_at_ms->0
                        &&& is.consecutive_failures == was.consecutive_failures
                        &&& is.state == if seen.due {
                            State::HalfOpen
                        } else {
                            State::CircuitOpen
                        }
                    },
                    State::Restarting | State::HalfOpen => !seen.due && is == was,
                }
            }
        }),
{
}

/// A look notes a state of recovery exactly where the child has come to it by that look, and it is one in which the
/// child is being started again, or its circuit is open or probed.
pub proof fn law_looks_note_what_the_child_has_come_to(
    child: RunningChild,
    closed: bool,
    now_ms: u64,
)
    ensures
        ({
            let seen = look(child, closed, now_ms);
            let is = seen.child.recovery.state;
            match seen.noted {
                Some(RecoveryState::Restarting) => is == State::Restarting,
                Some(RecoveryState::CircuitOpen) => is == State::CircuitOpen,
                Some(RecoveryState::HalfOpen) => is == State::HalfOpen,
                None => is == child.recovery.state || is == State::BackingOff,
            }
        }),
        look(child, closed, now_ms).noted is Some ==> look(child, closed, now_ms).child.recovery.state
            != child.recovery.state,
{
}

/// A round goes on from child to child until one is due: the next child is looked at exactly where none before it is
/// due, and is left alone where one is; what became of those before it stays.
pub proof fn law_a_round_ends_at_the_first_child_that_is_due(
    entries: Seq<(Seq<char>, RunningChild)>,
    closed: Set<Seq<char>>,
    now_ms: u64,
    next: (Seq<char>, RunningChild),
)
    ensures
        !round(Seq::empty(), closed, now_ms).due,
        round(Seq::empty(), closed, now_ms).children.len() == 0,
        ({
            let before = round(entries, closed, now_ms);
            let after = round(entries.push(next), closed, now_ms);
            let seen = look(next.1, closed.contains(next.0), now_ms);
            &&& after.due <==> before.due || seen.due
            &&& before.due ==> after.children == before.children.push(next.1)
            &&& !before.due ==> after.children == before.children.push(seen.child)
        }),
{
    assert(entries.push(next).drop_last() =~= entries);
    assert(entries.push(next).last() == next);
}

/// What a round notes are the states that its looks note, each under the name and generation of its child.
pub proof fn law_a_round_notes_what_its_looks_note(
    entries: Seq<(Seq<char>, RunningChild)>,
    closed: Set<Seq<char>>,
    now_ms: u64,
    next: (Seq<char>, RunningChild),
)
    ensures
        round(Seq::empty(), closed, now_ms).sightings == Seq::<Sighting>::empty(),
        ({
            let before = round(entries, closed, now_ms);
            let after = round(entries.push(next), closed, now_ms);
            let seen = look(next.1, closed.contains(next.0), now_ms);
            if before.due || seen.noted is None {
                after.sightings == before.sightings
            } else {
                let last = after.sightings[after.sightings.len() - 1];
                &&& after.sightings.len() == before.sightings.len() + 1
                &&& after.sightings.take(before.sightings.len() as int) == before.sightings
                &&& last.child == next.1.config.name
                &&& last.state == seen.noted->0
                &&& last.generation == next.1.recovery.generation
            }
        }),
{
    assert(entries.push(next).drop_last() =~= entries);
    let before = round(entries, closed, now_ms);
    let after = round(entries.push(next), closed, now_ms);
    if !before.due && look(next.1, closed.contains(next.0), now_ms).noted is Some {
        assert(after.sightings.take(before.sightings.len() as int) =~= before.sightings);
    } else {
        assert(after.sightings =~= before.sightings);
    }
}

/// A state that a child has come to is noted with the child's name, the state and the generation.
pub proof fn law_sightings_are_noted_in_every_part(observation: Observation, sighting: Sighting)
    ensures
        is_sighting(observation, sighting) <==> (observation matches Observation::ChildRecovery {
            child,
            state,
            generation,
        } && child@ == sighting.child && state == sighting.state && generation
            == sighting.generation),
{
}

/// The children that are looked at are those of the listing, each under its name and in its place.
pub proof fn law_listed_children_are_looked_at(entries: Seq<(Seq<char>, ChildEntry)>, i: int)
    requires
        0 <= i < entries.len(),
    ensures
        viewed(entries).len() == entries.len(),
        viewed(entries)[i].0 == entries[i].0,
        viewed(entries)[i].1 == entries[i].1@,
{
}

} // verus!
