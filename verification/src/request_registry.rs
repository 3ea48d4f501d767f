//! The requests in progress, under identifiers of the gateway's own.
use crate::clock;
use crate::ids::{canonical, random_id};
use crate::name_map::{lemma_map_of, map_of, ordered, NameMap};
use crate::text::before;
use vstd::prelude::*;
use vstd::view::View as _;

verus! {

/// The most requests in progress at once.
pub const MAX_ACTIVE_REQUESTS: usize = 256;

#[derive(Debug, Clone, Copy, PartialEq, Eq, Structural)]
pub enum Phase {
    Queued,
    Dispatched,
    Pending,
}

/// What is shown of a request in progress.
#[derive(Debug, PartialEq, Eq)]
pub struct View {
    pub request_id: String,
    pub child: String,
    pub tool: String,
    pub phase: Phase,
    pub child_request_id: Option<String>,
    pub started_at_ms: u128,
}

impl Clone for View {
    fn clone(&self) -> (r: Self)
        ensures
            r == *self,
    {
        View {
            request_id: self.request_id.clone(),
            child: self.child.clone(),
            tool: self.tool.clone(),
            phase: self.phase,
            child_request_id: match &self.child_request_id {
                None => None,
                Some(id) => Some(id.clone()),
            },
            started_at_ms: self.started_at_ms,
        }
    }
}

/// Requests by their identifiers.
pub type Requests = Map<Seq<char>, View>;

/// Every request stands under its identifier, and there are not too many.
pub open spec fn sound(requests: Requests) -> bool {
    &&& requests.dom().finite()
    &&& requests.len() <= MAX_ACTIVE_REQUESTS
    &&& forall|id: Seq<char>| #[trigger]
        requests.contains_key(id) ==> requests[id].request_id@ == id
}

/// A request that has just been put into the queue.
pub open spec fn queued(view: View, id: Seq<char>, child: String, tool: String, now_ms: u128) -> bool {
    &&& view.request_id@ == id
    &&& view.child == child
    &&& view.tool == tool
    &&& view.phase == Phase::Queued
    &&& view.child_request_id is None
    &&& view.started_at_ms == now_ms
}

/// The requests after one of them has moved on. Its identifier at the child stays where no other is given.
pub open spec fn updated(
    requests: Requests,
    id: Seq<char>,
    phase: Phase,
    child_request_id: Option<String>,
) -> Requests {
    if requests.contains_key(id) {
        requests.insert(
            id,
            View {
                phase,
                child_request_id: if child_request_id is Some {
                    child_request_id
                } else {
                    requests[id].child_request_id
                },
                ..requests[id]
            },
        )
    } else {
        requests
    }
}

pub struct Registry {
    active: NameMap<View>,
}

impl vstd::view::View for Registry {
    type V = Requests;

    closed spec fn view(&self) -> Requests {
        self.active@
    }
}

/// A place in the registry. Its view is the request's identifier.
#[derive(Debug)]
pub struct Ticket {
    request_id: String,
}

impl vstd::view::View for Ticket {
    type V = Seq<char>;

    closed spec fn view(&self) -> Seq<char> {
        self.request_id@
    }
}

impl Registry {
    #[verifier::type_invariant]
    spec fn consistent(self) -> bool {
        sound(self.active@)
    }

    /// The requests in the order of their identifiers.
    pub closed spec fn listing(self) -> Seq<(Seq<char>, View)> {
        self.active.listing()
    }

    /// The registry without requests.
    pub fn new() -> (r: Self)
        ensures
            r@ == Map::<Seq<char>, View>::empty(),
    {
        Registry { active: NameMap::new() }
    }

    /// Enters a request under the identifier `id` at the time `now_ms`, if there is room.
    pub fn begin_as(&mut self, id: String, child: String, tool: String, now_ms: u128) -> (r: Option<
        Ticket,
    >)
        ensures
            r is Some <==> old(self)@.len() < MAX_ACTIVE_REQUESTS,
            r is None ==> final(self)@ == old(self)@,
            r matches Some(ticket) ==> ticket@ == id@ && final(self)@.contains_key(id@)
                && final(self)@ == old(self)@.insert(id@, final(self)@[id@]) && queued(
                final(self)@[id@],
                id@,
                child,
                tool,
                now_ms,
            ),
    {
        proof {
            use_type_invariant(&*self);
        }
        if self.active.len() >= MAX_ACTIVE_REQUESTS {
            return None;
        }
        let view = View {
            request_id: id.clone(),
            child,
            tool,
            phase: Phase::Queued,
            child_request_id: None,
            started_at_ms: now_ms,
        };
        let ghost key = id@;
        let ghost shown = view;
        let request_id = id.clone();
        let mut active: NameMap<View> = NameMap::new();
        std::mem::swap(&mut active, &mut self.active);
        active.insert(id, view);
        assert(sound(active@));
        self.active = active;
        Some(Ticket { request_id })
    }

    /// Enters a request under a new identifier, if there is room.
    pub fn begin(&mut self, child: String, tool: String) -> (r: Option<Ticket>)
        ensures
            r is Some <==> old(self)@.len() < MAX_ACTIVE_REQUESTS,
            r is None ==> final(self)@ == old(self)@,
            r matches Some(ticket) ==> canonical(ticket@) && final(self)@.contains_key(ticket@)
                && final(self)@ == old(self)@.insert(ticket@, final(self)@[ticket@]) && exists|
                now_ms: u128,
            | #[trigger]
                queued(final(self)@[ticket@], ticket@, child, tool, now_ms),
    {
        let request_id = random_id();
        let now_ms: u128 = clock::unix_millis();
        self.begin_as(request_id, child, tool, now_ms)
    }

    /// The requests in progress, in the order of their identifiers.
    pub fn active(&self) -> (r: Vec<View>)
        ensures
            sound(self@),
            ordered(self.listing()),
            map_of(self.listing()) == self@,
            r@ == self.listing().map_values(|entry: (Seq<char>, View)| entry.1),
    {
        proof {
            use_type_invariant(self);
            use_type_invariant(&self.active);
        }
        let mut out: Vec<View> = Vec::new();
        let n: usize = self.active.len();
        let mut i: usize = 0;
        while i < n
            invariant
                i <= n,
                n == self.active.listing().len(),
                out@ == self.active.listing().take(i as int).map_values(
                    |entry: (Seq<char>, View)| entry.1,
                ),
            decreases n - i,
        {
            out.push(self.active.value_at(i).clone());
            assert(self.active.listing().take(i + 1) =~= self.active.listing().take(i as int).push(
                self.active.listing()[i as int],
            ));
            assert(out@ =~= self.active.listing().take(i + 1).map_values(
                |entry: (Seq<char>, View)| entry.1,
            ));
            i = i + 1;
        }
        assert(self.active.listing().take(i as int) =~= self.active.listing());
        out
    }
}

impl Ticket {
    /// The request's identifier.
    pub fn id(&self) -> (r: &str)
        ensures
            r@ == self@,
    {
        &self.request_id
    }

    /// The request has gone to the child, which knows it by `child_request_id`.
    pub fn dispatched(&self, registry: &mut Registry, child_request_id: String)
        ensures
            final(registry)@ == updated(
                old(registry)@,
                self@,
                Phase::Dispatched,
                Some(child_request_id),
            ),
    {
        self.update(registry, Phase::Dispatched, Some(child_request_id));
    }

    /// The client does not wait for the request any more; what comes of it is still open.
    pub fn pending(&self, registry: &mut Registry)
        ensures
            final(registry)@ == updated(old(registry)@, self@, Phase::Pending, None),
    {
        self.update(registry, Phase::Pending, None);
    }

    fn update(&self, registry: &mut Registry, phase: Phase, child_request_id: Option<String>)
        ensures
            final(registry)@ == updated(old(registry)@, self@, phase, child_request_id),
    {
        proof {
            use_type_invariant(&*registry);
        }
        let mut active: NameMap<View> = NameMap::new();
        std::mem::swap(&mut active, &mut registry.active);
        if let Some(last) = active.remove(&self.request_id) {
            let mut entry = last;
            entry.phase = phase;
            if child_request_id.is_some() {
                entry.child_request_id = child_request_id;
            }
            let ghost done = entry;
            active.insert(self.request_id.clone(), entry);
            assert(active@ =~= updated(old(registry)@, self@, phase, child_request_id));
        } else {
            assert(active@ =~= old(registry)@);
        }
        assert(sound(active@));
        registry.active = active;
    }

    /// The request is over: it leaves the registry.
    pub fn finish(self, registry: &mut Registry)
        ensures
            final(registry)@ == old(registry)@.remove(self@),
    {
        proof {
            use_type_invariant(&*registry);
        }
        let mut active: NameMap<View> = NameMap::new();
        std::mem::swap(&mut active, &mut registry.active);
        active.remove(&self.request_id);
        assert(sound(active@));
        registry.active = active;
    }
}

/// Only requests in progress are there: one that was entered under a new identifier, moved on and finished leaves
/// the registry as it was.
pub proof fn law_finished_requests_leave_no_trace(
    requests: Requests,
    id: Seq<char>,
    view: View,
    child_request_id: Option<String>,
)
    requires
        !requests.contains_key(id),
    ensures
        ({
            let entered = requests.insert(id, view);
            let dispatched = updated(entered, id, Phase::Dispatched, child_request_id);
            let pending = updated(dispatched, id, Phase::Pending, None);
            &&& entered.remove(id) == requests
            &&& dispatched.remove(id) == requests
            &&& pending.remove(id) == requests
            &&& child_request_id is Some ==> pending[id].child_request_id == child_request_id
        }),
{
    let entered = requests.insert(id, view);
    let dispatched = updated(entered, id, Phase::Dispatched, child_request_id);
    let pending = updated(dispatched, id, Phase::Pending, None);
    assert(entered.remove(id) =~= requests);
    assert(dispatched.remove(id) =~= requests);
    assert(pending.remove(id) =~= requests);
}

/// No step exceeds the bound or parts a request from its identifier.
pub proof fn law_registry_stays_bounded(
    requests: Requests,
    id: Seq<char>,
    view: View,
    phase: Phase,
    child_request_id: Option<String>,
)
    requires
        sound(requests),
        view.request_id@ == id,
    ensures
        requests.len() < MAX_ACTIVE_REQUESTS ==> sound(requests.insert(id, view)),
        sound(updated(requests, id, phase, child_request_id)),
        sound(requests.remove(id)),
{
}

/// What happens to a registry: a request is entered under an identifier, moves on, or leaves.
pub enum Act {
    Enter(Seq<char>, View),
    MoveOn(Seq<char>, Phase, Option<String>),
    Leave(Seq<char>),
}

/// The act can happen: a request is entered under its own identifier, which is new, where there is room.
pub open spec fn can_act(requests: Requests, act: Act) -> bool {
    match act {
        Act::Enter(id, view) => !requests.contains_key(id) && requests.len() < MAX_ACTIVE_REQUESTS
            && view.request_id@ == id,
        _ => true,
    }
}

pub open spec fn acted(requests: Requests, act: Act) -> Requests {
    match act {
        Act::Enter(id, view) => requests.insert(id, view),
        Act::MoveOn(id, phase, child_request_id) => updated(requests, id, phase, child_request_id),
        Act::Leave(id) => requests.remove(id),
    }
}

/// The requests of a registry that began empty, after the acts.
pub open spec fn requests_after(acts: Seq<Act>) -> Requests
    decreases acts.len(),
{
    if acts.len() == 0 {
        Map::empty()
    } else {
        acted(requests_after(acts.drop_last()), acts.last())
    }
}

/// The acts can happen one after the other.
pub open spec fn can_happen(acts: Seq<Act>) -> bool
    decreases acts.len(),
{
    acts.len() > 0 ==> can_happen(acts.drop_last()) && can_act(
        requests_after(acts.drop_last()),
        acts.last(),
    )
}

/// The identifiers that were entered and have not left.
pub open spec fn live(acts: Seq<Act>) -> Set<Seq<char>>
    decreases acts.len(),
{
    if acts.len() == 0 {
        Set::empty()
    } else {
        let before = live(acts.drop_last());
        match acts.last() {
            Act::Enter(id, _) => before.insert(id),
            Act::MoveOn(_, _, _) => before,
            Act::Leave(id) => before.remove(id),
        }
    }
}

/// Throughout its life a registry holds exactly the live requests, each under its identifier, and never too many.
pub proof fn law_registry_holds_the_live_requests(acts: Seq<Act>)
    requires
        can_happen(acts),
    ensures
        requests_after(acts).dom() == live(acts),
        sound(requests_after(acts)),
    decreases acts.len(),
{
    if acts.len() > 0 {
        law_registry_holds_the_live_requests(acts.drop_last());
        assert(requests_after(acts).dom() =~= live(acts));
    }
}

/// An act touches its own request only; a request that leaves takes away itself and nothing else.
pub proof fn law_acts_touch_their_own_request(requests: Requests, act: Act, other: Seq<char>)
    requires
        match act {
            Act::Enter(id, _) => id != other,
            Act::MoveOn(id, _, _) => id != other,
            Act::Leave(id) => id != other,
        },
    ensures
        acted(requests, act).contains_key(other) <==> requests.contains_key(other),
        requests.contains_key(other) ==> acted(requests, act)[other] == requests[other],
{
}

/// The list of the requests in progress has one entry for each live request and no other, in strictly ascending order
/// of the identifiers, and is bounded.
pub proof fn law_live_requests_are_listed_once(acts: Seq<Act>, listing: Seq<(Seq<char>, View)>)
    requires
        can_happen(acts),
        ordered(listing),
        map_of(listing) == requests_after(acts),
    ensures
        listing.len() <= MAX_ACTIVE_REQUESTS,
        forall|i: int| 0 <= i < listing.len() ==> live(acts).contains((#[trigger] listing[i]).1.request_id@),
        forall|id: Seq<char>| #[trigger]
            live(acts).contains(id) ==> exists|i: int|
                0 <= i < listing.len() && (#[trigger] listing[i]).1.request_id@ == id,
        forall|i: int, j: int|
            0 <= i < j < listing.len() ==> before(
                (#[trigger] listing[i]).1.request_id@,
                (#[trigger] listing[j]).1.request_id@,
            ),
{
    law_registry_holds_the_live_requests(acts);
    lemma_map_of(listing);
    let requests = requests_after(acts);
    assert forall|i: int| 0 <= i < listing.len() implies (#[trigger] listing[i]).1.request_id@
        == listing[i].0 && live(acts).contains(listing[i].0) by {
        assert(requests.contains_key(listing[i].0));
    }
    assert forall|id: Seq<char>| #[trigger] live(acts).contains(id) implies exists|i: int|
        0 <= i < listing.len() && (#[trigger] listing[i]).1.request_id@ == id by {
        assert(requests.contains_key(id));
        let i = choose|i: int| 0 <= i < listing.len() && #[trigger] listing[i].0 == id;
        assert(listing[i].1.request_id@ == id);
    }
    assert forall|i: int, j: int| 0 <= i < j < listing.len() implies before(
        (#[trigger] listing[i]).1.request_id@,
        (#[trigger] listing[j]).1.request_id@,
    ) by {
        assert(before(listing[i].0, listing[j].0));
    }
}

/// A request that is entered waits in the queue, with what it is for and since when, and the child does not know it yet;
/// one that moves on changes its phase and, where one is given, its identifier at the child, and nothing else.
pub proof fn law_requests_move_on_by_their_phase(
    requests: Requests,
    id: Seq<char>,
    phase: Phase,
    child_request_id: Option<String>,
    other: Seq<char>,
)
    requires
        requests.contains_key(id),
        other != id,
    ensures
        ({
            let after = updated(requests, id, phase, child_request_id);
            let was = requests[id];
            let is = after[id];
            &&& after.contains_key(id)
            &&& is.phase == phase
            &&& child_request_id is Some ==> is.child_request_id == child_request_id
            &&& child_request_id is None ==> is.child_request_id == was.child_request_id
            &&& is.request_id == was.request_id
            &&& is.child == was.child
            &&& is.tool == was.tool
            &&& is.started_at_ms == was.started_at_ms
            &&& after.contains_key(other) == requests.contains_key(other)
            &&& after[other] == requests[other]
        }),
        forall|view: View, child: String, tool: String, now_ms: u128| #[trigger]
            queued(view, id, child, tool, now_ms) ==> view.phase == Phase::Queued
                && view.child_request_id is None && view.request_id@ == id && view.child == child
                && view.tool == tool && view.started_at_ms == now_ms,
        forall|gone: Seq<char>|
            !requests.contains_key(gone) ==> #[trigger] updated(
                requests,
                gone,
                phase,
                child_request_id,
            ) == requests,
{
}

} // verus!
