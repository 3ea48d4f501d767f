//! Admission of requests: a bounded queue in front of bounded capacity, in all, per child and per tool.
use crate::name_map::NameMap;
use crate::span::Span;
use vstd::multiset::Multiset;
use vstd::prelude::*;

verus! {

/// Why a request was not admitted.
#[derive(Debug, Clone, Copy, PartialEq, Eq, Structural)]
pub enum AdmissionError {
    Saturated,
    Cancelled,
    Deadline,
    Draining,
}

/// What a request is for, and how much may run there at once.
#[derive(Debug, Clone)]
pub struct RequestSpec {
    pub child: String,
    pub child_limit: usize,
    pub tool: String,
    pub tool_limit: usize,
}

#[derive(Debug)]
struct Pending {
    id: u64,
    spec: RequestSpec,
}

/// A request that waits.
pub struct Waiting {
    pub id: u64,
    pub child: Seq<char>,
    pub child_limit: usize,
    pub tool: Seq<char>,
    pub tool_limit: usize,
}

/// The child and the tool that a running request occupies.
pub type Place = (Seq<char>, Seq<char>);

pub open spec fn of_child(child: Seq<char>) -> spec_fn(Place) -> bool {
    |place: Place| place.0 == child
}

pub open spec fn of_tool(tool: Seq<char>) -> spec_fn(Place) -> bool {
    |place: Place| place.1 == tool
}

/// The running requests of a child.
pub open spec fn child_load(leases: Multiset<Place>, child: Seq<char>) -> nat {
    leases.filter(of_child(child)).len()
}

/// The running requests of a tool.
pub open spec fn tool_load(leases: Multiset<Place>, tool: Seq<char>) -> nat {
    leases.filter(of_tool(tool)).len()
}

pub open spec fn other_than(id: u64) -> spec_fn(Waiting) -> bool {
    |request: Waiting| request.id != id
}

/// What admission goes by.
#[verifier::ext_equal]
pub struct Scheduler {
    pub global_limit: usize,
    pub queue_limit: usize,
    pub wait: nat,
    pub open: bool,
    pub next_id: u64,
    pub queue: Seq<Waiting>,
    pub leases: Multiset<Place>,
}

impl Scheduler {
    pub open spec fn initial(global_limit: usize, queue_limit: usize, wait: nat) -> Scheduler {
        Scheduler {
            global_limit,
            queue_limit,
            wait,
            open: true,
            next_id: 0,
            queue: Seq::empty(),
            leases: Multiset::empty(),
        }
    }

    /// What every coordinator keeps: the limits hold, and the waiting requests have distinct numbers.
    pub open spec fn sound(self) -> bool {
        &&& self.leases.len() <= self.global_limit
        &&& self.queue.len() <= self.queue_limit
        &&& forall|i: int|
            0 <= i < self.queue.len() ==> (#[trigger] self.queue[i]).id < self.next_id
        &&& forall|i: int, j: int|
            0 <= i < j < self.queue.len() ==> (#[trigger] self.queue[i]).id != (
            #[trigger] self.queue[j]).id
    }

    /// There is room for the request: in all, in its child and in its tool.
    pub open spec fn eligible(self, request: Waiting) -> bool {
        &&& self.leases.len() < self.global_limit
        &&& child_load(self.leases, request.child) < request.child_limit
        &&& tool_load(self.leases, request.tool) < request.tool_limit
    }

    /// The request at place `i` is the next to run: there is room for it, and for none before it.
    pub open spec fn next(self, i: int) -> bool {
        &&& 0 <= i < self.queue.len()
        &&& self.eligible(self.queue[i])
        &&& forall|j: int| 0 <= j < i ==> !self.eligible(#[trigger] self.queue[j])
    }

    pub open spec fn joined(self, child: Seq<char>, child_limit: usize, tool: Seq<char>, tool_limit: usize) -> Scheduler {
        Scheduler {
            next_id: (self.next_id + 1) as u64,
            queue: self.queue.push(
                Waiting { id: self.next_id, child, child_limit, tool, tool_limit },
            ),
            ..self
        }
    }

    pub open spec fn dispatched(self, i: int) -> Scheduler {
        Scheduler {
            queue: self.queue.remove(i),
            leases: self.leases.insert((self.queue[i].child, self.queue[i].tool)),
            ..self
        }
    }

    pub open spec fn without(self, id: u64) -> Scheduler {
        Scheduler { queue: self.queue.filter(other_than(id)), ..self }
    }

    pub open spec fn released(self, place: Place) -> Scheduler {
        Scheduler { leases: self.leases.remove(place), ..self }
    }

    pub open spec fn with_admission(self, open: bool) -> Scheduler {
        Scheduler { open, ..self }
    }

    /// The request with this number waits.
    pub open spec fn waits(self, id: u64) -> bool {
        exists|i: int| 0 <= i < self.queue.len() && (#[trigger] self.queue[i]).id == id
    }
}

/// The name has as many running requests as `load` says, and no entry where that is none.
spec fn counted(counts: Map<Seq<char>, usize>, name: Seq<char>, load: nat) -> bool {
    &&& counts.contains_key(name) <==> load > 0
    &&& counts.contains_key(name) ==> counts[name] == load
}

proof fn lemma_loads_after_insert(leases: Multiset<Place>, place: Place, name: Seq<char>)
    ensures
        child_load(leases.insert(place), name) == child_load(leases, name) + (if place.0 == name {
            1nat
        } else {
            0nat
        }),
        tool_load(leases.insert(place), name) == tool_load(leases, name) + (if place.1 == name {
            1nat
        } else {
            0nat
        }),
{
    broadcast use vstd::multiset::group_multiset_axioms;

    let by_child = of_child(name);
    let by_tool = of_tool(name);
    if place.0 == name {
        assert(leases.insert(place).filter(by_child) =~= leases.filter(by_child).insert(place));
    } else {
        assert(leases.insert(place).filter(by_child) =~= leases.filter(by_child));
    }
    if place.1 == name {
        assert(leases.insert(place).filter(by_tool) =~= leases.filter(by_tool).insert(place));
    } else {
        assert(leases.insert(place).filter(by_tool) =~= leases.filter(by_tool));
    }
}

proof fn lemma_loads_after_remove(leases: Multiset<Place>, place: Place, name: Seq<char>)
    requires
        leases.count(place) > 0,
    ensures
        child_load(leases, name) == child_load(leases.remove(place), name) + (if place.0 == name {
            1nat
        } else {
            0nat
        }),
        tool_load(leases, name) == tool_load(leases.remove(place), name) + (if place.1 == name {
            1nat
        } else {
            0nat
        }),
{
    broadcast use vstd::multiset::group_multiset_axioms;

    assert(leases.remove(place).insert(place) =~= leases);
    lemma_loads_after_insert(leases.remove(place), place, name);
}

/// A load is a part of all running requests.
pub proof fn lemma_load_is_a_part(leases: Multiset<Place>, name: Seq<char>)
    ensures
        child_load(leases, name) <= leases.len(),
        tool_load(leases, name) <= leases.len(),
{
    broadcast use vstd::multiset::group_multiset_axioms;

    let by_child = of_child(name);
    let by_tool = of_tool(name);
    assert(leases.filter(by_child).subset_of(leases));
    assert(leases.filter(by_tool).subset_of(leases));
    assert(leases =~= leases.filter(by_child).add(leases.sub(leases.filter(by_child))));
    assert(leases =~= leases.filter(by_tool).add(leases.sub(leases.filter(by_tool))));
}

proof fn lemma_no_load_when_idle(name: Seq<char>)
    ensures
        child_load(Multiset::<Place>::empty(), name) == 0,
        tool_load(Multiset::<Place>::empty(), name) == 0,
{
    broadcast use vstd::multiset::group_multiset_axioms;

    lemma_load_is_a_part(Multiset::<Place>::empty(), name);
}

spec fn waiting_of(pending: Seq<Pending>) -> Seq<Waiting> {
    pending.map_values(
        |p: Pending| Waiting {
            id: p.id,
            child: p.spec.child@,
            child_limit: p.spec.child_limit,
            tool: p.spec.tool@,
            tool_limit: p.spec.tool_limit,
        },
    )
}

/// Admits requests, the first for which there is room before any other.
pub struct Coordinator {
    global_limit: usize,
    queue_limit: usize,
    wait: Span,
    open: bool,
    next_id: u64,
    queue: Vec<Pending>,
    global_active: usize,
    child_active: NameMap<usize>,
    tool_active: NameMap<usize>,
    leases: Ghost<Multiset<Place>>,
}

impl View for Coordinator {
    type V = Scheduler;

    closed spec fn view(&self) -> Scheduler {
        Scheduler {
            global_limit: self.global_limit,
            queue_limit: self.queue_limit,
            wait: self.wait@,
            open: self.open,
            next_id: self.next_id,
            queue: waiting_of(self.queue@),
            leases: self.leases@,
        }
    }
}

/// Capacity that a request holds while it runs. Its view is the child and the tool.
#[derive(Debug)]
pub struct Lease {
    child: String,
    tool: String,
}

impl View for Lease {
    type V = Place;

    closed spec fn view(&self) -> Place {
        (self.child@, self.tool@)
    }
}

/// What a waiting request wakes up to.
#[derive(Debug, Clone, Copy, PartialEq, Eq, Structural)]
pub enum Waking {
    Notified,
    Cancelled,
    Deadline,
}

/// What comes of a turn of a waiting request.
#[derive(Debug)]
pub enum Turn {
    Admitted(Lease),
    Refused(AdmissionError),
    Wait,
}

fn load_of(counts: &NameMap<usize>, name: &str) -> (r: usize)
    ensures
        r == (if counts@.contains_key(name@) {
            counts@[name@]
        } else {
            0
        }),
{
    match counts.get(name) {
        Some(count) => *count,
        None => 0,
    }
}

fn add_load(counts: &mut NameMap<usize>, name: &str)
    requires
        old(counts)@.contains_key(name@) ==> old(counts)@[name@] < usize::MAX,
    ensures
        final(counts)@ == old(counts)@.insert(
            name@,
            (if old(counts)@.contains_key(name@) {
                (old(counts)@[name@] + 1) as usize
            } else {
                1
            }),
        ),
{
    let count: usize = load_of(counts, name);
    counts.insert(name.to_owned(), count + 1);
}

fn drop_load(counts: &mut NameMap<usize>, name: &str)
    requires
        old(counts)@.contains_key(name@),
        old(counts)@[name@] > 0,
    ensures
        final(counts)@ == (if old(counts)@[name@] == 1 {
            old(counts)@.remove(name@)
        } else {
            old(counts)@.insert(name@, (old(counts)@[name@] - 1) as usize)
        }),
{
    let count: usize = load_of(counts, name);
    if count == 1 {
        counts.remove(name);
    } else {
        counts.insert(name.to_owned(), count - 1);
    }
}

impl Coordinator {
    #[verifier::type_invariant]
    spec fn consistent(self) -> bool {
        &&& self@.sound()
        &&& self.global_active == self.leases@.len()
        &&& forall|name: Seq<char>|
            counted(self.child_active@, name, #[trigger] child_load(self.leases@, name))
        &&& forall|name: Seq<char>|
            counted(self.tool_active@, name, #[trigger] tool_load(self.leases@, name))
    }

    /// A coordinator that runs and keeps waiting at most so many requests, and keeps none waiting longer than `wait`.
    pub fn new(global_limit: usize, queue_limit: usize, wait: Span) -> (r: Self)
        ensures
            r@ == Scheduler::initial(global_limit, queue_limit, wait@),
    {
        broadcast use vstd::multiset::group_multiset_axioms;

        proof {
            assert forall|name: Seq<char>| #[trigger]
                child_load(Multiset::<Place>::empty(), name) == 0 by {
                lemma_no_load_when_idle(name);
            }
            assert forall|name: Seq<char>| #[trigger]
                tool_load(Multiset::<Place>::empty(), name) == 0 by {
                lemma_no_load_when_idle(name);
            }
        }
        let queue: Vec<Pending> = Vec::new();
        assert(waiting_of(queue@) =~= Seq::<Waiting>::empty());
        Coordinator {
            global_limit,
            queue_limit,
            wait,
            open: true,
            next_id: 0,
            queue,
            global_active: 0,
            child_active: NameMap::new(),
            tool_active: NameMap::new(),
            leases: Ghost(Multiset::empty()),
        }
    }

    /// How long a request may wait.
    pub fn wait(&self) -> (r: Span)
        ensures
            r@ == self@.wait,
    {
        self.wait
    }

    /// The number of the next request to wait.
    pub fn next_id(&self) -> (r: u64)
        ensures
            r == self@.next_id,
    {
        self.next_id
    }

    /// The requests that wait.
    pub fn queued(&self) -> (r: usize)
        ensures
            r == self@.queue.len(),
            self@.sound(),
    {
        proof {
            use_type_invariant(self);
        }
        self.queue.len()
    }

    /// The requests that run.
    pub fn active(&self) -> (r: usize)
        ensures
            r == self@.leases.len(),
            self@.sound(),
    {
        proof {
            use_type_invariant(self);
        }
        self.global_active
    }

    /// Whether new requests are admitted.
    pub fn is_accepting(&self) -> (r: bool)
        ensures
            r == self@.open,
    {
        self.open
    }

    /// Admits no request any more.
    pub fn close_admission(&mut self)
        ensures
            final(self)@ == old(self)@.with_admission(false),
    {
        proof {
            use_type_invariant(&*self);
        }
        self.open = false;
    }

    /// Admits requests again.
    pub fn open_admission(&mut self)
        ensures
            final(self)@ == old(self)@.with_admission(true),
    {
        proof {
            use_type_invariant(&*self);
        }
        self.open = true;
    }

    /// One turn of a wait for the running requests: whether they have finished, or nothing while the wait goes on.
    /// The wait starts as if notified.
    pub fn wait_idle(&self, waking: Waking) -> (r: Option<bool>)
        ensures
            r == (if waking == Waking::Notified {
                if self@.leases.len() == 0 {
                    Some(true)
                } else {
                    None
                }
            } else {
                Some(false)
            }),
    {
        proof {
            use_type_invariant(self);
        }
        if waking == Waking::Notified {
            if self.global_active == 0 {
                Some(true)
            } else {
                None
            }
        } else {
            Some(false)
        }
    }

    /// Puts a request into the queue and gives it its number, unless admission is closed or the queue is full.
    pub fn acquire(&mut self, spec: RequestSpec) -> (r: Result<u64, AdmissionError>)
        requires
            old(self)@.next_id < u64::MAX,
        ensures
            !old(self)@.open ==> r == Err::<u64, AdmissionError>(AdmissionError::Draining)
                && final(self)@ == old(self)@,
            old(self)@.open && old(self)@.queue.len() >= old(self)@.queue_limit ==> r == Err::<
                u64,
                AdmissionError,
            >(AdmissionError::Saturated) && final(self)@ == old(self)@,
            old(self)@.open && old(self)@.queue.len() < old(self)@.queue_limit ==> r == Ok::<
                u64,
                AdmissionError,
            >(old(self)@.next_id) && final(self)@ == old(self)@.joined(
                spec.child@,
                spec.child_limit,
                spec.tool@,
                spec.tool_limit,
            ),
    {
        proof {
            use_type_invariant(&*self);
        }
        if !self.open {
            return Err(AdmissionError::Draining);
        }
        if self.queue.len() >= self.queue_limit {
            return Err(AdmissionError::Saturated);
        }
        let id: u64 = self.next_id;
        let ghost start = self@;
        let ghost fresh = Waiting {
            id,
            child: spec.child@,
            child_limit: spec.child_limit,
            tool: spec.tool@,
            tool_limit: spec.tool_limit,
        };
        self.next_id = id + 1;
        let mut queue: Vec<Pending> = Vec::new();
        std::mem::swap(&mut queue, &mut self.queue);
        queue.push(Pending { id, spec });
        assert(waiting_of(queue@) =~= start.queue.push(fresh));
        self.queue = queue;
        Ok(id)
    }

    fn has_room(&self, pending: &Pending) -> (r: bool)
        ensures
            r == self@.eligible(
                (Waiting {
                    id: pending.id,
                    child: pending.spec.child@,
                    child_limit: pending.spec.child_limit,
                    tool: pending.spec.tool@,
                    tool_limit: pending.spec.tool_limit,
                }),
            ),
    {
        proof {
            use_type_invariant(self);
            assert(counted(
                self.child_active@,
                pending.spec.child@,
                child_load(self.leases@, pending.spec.child@),
            ));
            assert(counted(
                self.tool_active@,
                pending.spec.tool@,
                tool_load(self.leases@, pending.spec.tool@),
            ));
        }
        self.global_active < self.global_limit && load_of(&self.child_active, &pending.spec.child)
            < pending.spec.child_limit && load_of(&self.tool_active, &pending.spec.tool)
            < pending.spec.tool_limit
    }

    /// The place of the first request for which there is room.
    fn first_with_room(&self) -> (r: Option<usize>)
        ensures
            r matches Some(i) ==> self@.next(i as int),
            r is None ==> forall|i: int|
                0 <= i < self@.queue.len() ==> !self@.eligible(#[trigger] self@.queue[i]),
    {
        let mut i: usize = 0;
        while i < self.queue.len()
            invariant
                i <= self.queue.len(),
                forall|j: int| 0 <= j < i ==> !self@.eligible(#[trigger] self@.queue[j]),
            decreases self.queue.len() - i,
        {
            if self.has_room(&self.queue[i]) {
                return Some(i);
            }
            i = i + 1;
        }
        None
    }

    /// Lets the request with this number run, if admission is open and it is the next to run.
    pub fn try_dispatch(&mut self, id: u64) -> (r: Option<Lease>)
        ensures
            r is Some <==> old(self)@.open && exists|i: int| #[trigger]
                old(self)@.next(i) && old(self)@.queue[i].id == id,
            forall|i: int| #[trigger]
                old(self)@.next(i) && old(self)@.queue[i].id == id && old(self)@.open
                    ==> final(self)@ == old(self)@.dispatched(i) && (r matches Some(lease)
                    && lease@ == (old(self)@.queue[i].child, old(self)@.queue[i].tool)),
            r is None ==> final(self)@ == old(self)@,
            old(self)@.open && old(self)@.queue.len() > 0 && old(self)@.queue[0].id == id
                && old(self)@.leases.len() < old(self)@.global_limit && old(self)@.leases.filter(
                |place: Place| place.0 == old(self)@.queue[0].child,
            ).len() < old(self)@.queue[0].child_limit && old(self)@.leases.filter(
                |place: Place| place.1 == old(self)@.queue[0].tool,
            ).len() < old(self)@.queue[0].tool_limit ==> r is Some && final(self)@.leases.len()
                == old(self)@.leases.len() + 1,
    {
        proof {
            law_room_is_counted_in_running_requests(self@, 0);
            broadcast use vstd::multiset::group_multiset_axioms;

        }
        if !self.open {
            return None;
        }
        let selected: usize = match self.first_with_room() {
            None => {
                assert forall|i: int| !(#[trigger] self@.next(i)) by {
                    if self@.next(i) {
                        assert(self@.eligible(self@.queue[i]));
                    }
                }
                return None;
            },
            Some(selected) => selected,
        };
        assert forall|i: int| #[trigger] self@.next(i) implies i == selected by {
            if i < selected {
                assert(!self@.eligible(self@.queue[i]));
            }
            if selected < i {
                assert(!self@.eligible(self@.queue[selected as int]));
            }
        }
        if self.queue[selected].id != id {
            return None;
        }
        let ghost start = self@;
        proof {
            use_type_invariant(&*self);
            broadcast use vstd::multiset::group_multiset_axioms;

            lemma_load_is_a_part(self.leases@, self.queue@[selected as int].spec.child@);
            lemma_load_is_a_part(self.leases@, self.queue@[selected as int].spec.tool@);
            assert(self@.next(selected as int));
        }
        let mut taken = Coordinator::new(self.global_limit, self.queue_limit, self.wait);
        std::mem::swap(&mut taken, self);
        let Coordinator {
            global_limit,
            queue_limit,
            wait,
            open,
            next_id,
            mut queue,
            global_active,
            mut child_active,
            mut tool_active,
            leases,
        } = taken;
        let pending = queue.remove(selected);
        let ghost place = (pending.spec.child@, pending.spec.tool@);
        assert(waiting_of(queue@) =~= start.queue.remove(selected as int));
        proof {
            assert(counted(child_active@, place.0, child_load(leases@, place.0)));
            assert(counted(tool_active@, place.1, tool_load(leases@, place.1)));
        }
        add_load(&mut child_active, &pending.spec.child);
        add_load(&mut tool_active, &pending.spec.tool);
        proof {
            assert forall|name: Seq<char>|
                counted(child_active@, name, #[trigger] child_load(leases@.insert(place), name)) by {
                lemma_loads_after_insert(leases@, place, name);
                assert(counted(old(self).child_active@, name, child_load(leases@, name)));
            }
            assert forall|name: Seq<char>|
                counted(tool_active@, name, #[trigger] tool_load(leases@.insert(place), name)) by {
                lemma_loads_after_insert(leases@, place, name);
                assert(counted(old(self).tool_active@, name, tool_load(leases@, name)));
            }
            lemma_removed_stays_sound(start, selected as int);
        }
        *self = Coordinator {
            global_limit,
            queue_limit,
            wait,
            open,
            next_id,
            queue,
            global_active: global_active + 1,
            child_active,
            tool_active,
            leases: Ghost(leases@.insert(place)),
        };
        assert(self@ =~= start.dispatched(selected as int));
        Some(Lease { child: pending.spec.child, tool: pending.spec.tool })
    }

    /// Takes the request with this number out of the queue, if it waits.
    pub fn remove(&mut self, id: u64)
        ensures
            final(self)@ == old(self)@.without(id),
    {
        proof {
            use_type_invariant(&*self);
        }
        let ghost start = self@;
        let mut i: usize = 0;
        while i < self.queue.len()
            invariant
                i <= self.queue.len(),
                self@ == start,
                old(self)@ == start,
                start.sound(),
                forall|j: int| 0 <= j < i ==> (#[trigger] start.queue[j]).id != id,
            decreases self.queue.len() - i,
        {
            assert(start.queue[i as int].id == self.queue@[i as int].id);
            if self.queue[i].id == id {
                let mut queue: Vec<Pending> = Vec::new();
                proof {
                    use_type_invariant(&*self);
                }
                std::mem::swap(&mut queue, &mut self.queue);
                queue.remove(i);
                proof {
                    assert(waiting_of(queue@) =~= start.queue.remove(i as int));
                    lemma_without(start, id, i as int);
                }
                self.queue = queue;
                assert(self@ =~= start.without(id));
                return ;
            }
            i = i + 1;
        }
        proof {
            lemma_filter_keeps_all(start.queue, id);
        }
    }

    /// Gives back the capacity that a request held.
    pub fn release(&mut self, lease: Lease)
        requires
            old(self)@.leases.count(lease@) > 0,
        ensures
            final(self)@ == old(self)@.released(lease@),
    {
        broadcast use vstd::multiset::group_multiset_axioms;

        let ghost start = self@;
        proof {
            use_type_invariant(&*self);
            lemma_loads_after_remove(self.leases@, lease@, lease@.0);
            lemma_loads_after_remove(self.leases@, lease@, lease@.1);
        }
        let mut taken = Coordinator::new(self.global_limit, self.queue_limit, self.wait);
        std::mem::swap(&mut taken, self);
        let Coordinator {
            global_limit,
            queue_limit,
            wait,
            open,
            next_id,
            queue,
            global_active,
            mut child_active,
            mut tool_active,
            leases,
        } = taken;
        proof {
            assert(counted(child_active@, lease@.0, child_load(leases@, lease@.0)));
            assert(counted(tool_active@, lease@.1, tool_load(leases@, lease@.1)));
        }
        drop_load(&mut child_active, &lease.child);
        drop_load(&mut tool_active, &lease.tool);
        proof {
            assert forall|name: Seq<char>|
                counted(child_active@, name, #[trigger] child_load(leases@.remove(lease@), name)) by {
                lemma_loads_after_remove(leases@, lease@, name);
                assert(counted(old(self).child_active@, name, child_load(leases@, name)));
            }
            assert forall|name: Seq<char>|
                counted(tool_active@, name, #[trigger] tool_load(leases@.remove(lease@), name)) by {
                lemma_loads_after_remove(leases@, lease@, name);
                assert(counted(old(self).tool_active@, name, tool_load(leases@, name)));
            }
        }
        *self = Coordinator {
            global_limit,
            queue_limit,
            wait,
            open,
            next_id,
            queue,
            global_active: global_active - 1,
            child_active,
            tool_active,
            leases: Ghost(leases@.remove(lease@)),
        };
        assert(self@ =~= start.released(lease@));
    }

    /// One turn of a waiting request, which starts its wait as if notified: it runs where it is the next to run,
    /// leaves the queue where it was cancelled, waited too long or finds admission closed, and else goes on waiting.
    pub fn take_turn(&mut self, id: u64, waking: Waking) -> (r: Turn)
        ensures
            waking == Waking::Cancelled ==> r == Turn::Refused(AdmissionError::Cancelled)
                && final(self)@ == old(self)@.without(id),
            waking == Waking::Deadline ==> r == Turn::Refused(AdmissionError::Deadline)
                && final(self)@ == old(self)@.without(id),
            waking == Waking::Notified && !old(self)@.open ==> r == Turn::Refused(
                AdmissionError::Draining,
            ) && final(self)@ == old(self)@.without(id),
            waking == Waking::Notified && old(self)@.open ==> {
                &&& r is Admitted || r is Wait
                &&& r is Admitted <==> exists|i: int| #[trigger]
                    old(self)@.next(i) && old(self)@.queue[i].id == id
                &&& forall|i: int| #[trigger]
                    old(self)@.next(i) && old(self)@.queue[i].id == id ==> final(self)@ == old(self)@.dispatched(i) && (r matches Turn::Admitted(lease) && lease@ == (
                        old(self)@.queue[i].child,
                        old(self)@.queue[i].tool,
                    ))
                &&& r is Wait ==> final(self)@ == old(self)@
            },
            waking == Waking::Notified && old(self)@.open && old(self)@.queue.len() > 0
                && old(self)@.queue[0].id == id && old(self)@.leases.len() < old(self)@.global_limit && old(self)@.leases.filter(
                |place: Place| place.0 == old(self)@.queue[0].child,
            ).len() < old(self)@.queue[0].child_limit && old(self)@.leases.filter(
                |place: Place| place.1 == old(self)@.queue[0].tool,
            ).len() < old(self)@.queue[0].tool_limit ==> r is Admitted && final(self)@.leases.len()
                == old(self)@.leases.len() + 1,
    {
        match waking {
            Waking::Cancelled => {
                self.remove(id);
                Turn::Refused(AdmissionError::Cancelled)
            },
            Waking::Deadline => {
                self.remove(id);
                Turn::Refused(AdmissionError::Deadline)
            },
            Waking::Notified => {
                if !self.open {
                    self.remove(id);
                    return Turn::Refused(AdmissionError::Draining);
                }
                match self.try_dispatch(id) {
                    Some(lease) => Turn::Admitted(lease),
                    None => Turn::Wait,
                }
            },
        }
    }
}

proof fn lemma_filter_keeps_all(queue: Seq<Waiting>, id: u64)
    requires
        forall|i: int| 0 <= i < queue.len() ==> (#[trigger] queue[i]).id != id,
    ensures
        queue.filter(other_than(id)) == queue,
    decreases queue.len(),
{
    reveal(Seq::filter);
    if queue.len() > 0 {
        lemma_filter_keeps_all(queue.drop_last(), id);
        assert(queue.drop_last().push(queue.last()) =~= queue);
    }
}

/// With distinct numbers, one request leaves, and the limits hold on.
proof fn lemma_without(s: Scheduler, id: u64, i: int)
    requires
        s.sound(),
        0 <= i < s.queue.len(),
        s.queue[i].id == id,
    ensures
        s.without(id).queue == s.queue.remove(i),
        s.without(id).sound(),
{
    let head = s.queue.take(i);
    let tail = s.queue.skip(i + 1);
    lemma_filter_keeps_all(head, id);
    lemma_filter_keeps_all(tail, id);
    let one = seq![s.queue[i]];
    assert(s.queue =~= head + one + tail);
    Seq::filter_distributes_over_add(head + one, tail, other_than(id));
    Seq::filter_distributes_over_add(head, one, other_than(id));
    reveal_with_fuel(Seq::<_>::filter, 2);
    assert(one.drop_last() =~= Seq::<Waiting>::empty());
    assert(!other_than(id)(one.last()));
    assert(one.filter(other_than(id)) =~= Seq::<Waiting>::empty());
    assert(s.queue.remove(i) =~= head + tail);
    assert(s.without(id).queue =~= s.queue.remove(i));
    let t = s.without(id);
    assert forall|a: int| 0 <= a < t.queue.len() implies (#[trigger] t.queue[a]).id
        < t.next_id by {
        assert(t.queue[a] == s.queue[if a < i { a } else { a + 1 }]);
    }
    assert forall|a: int, b: int| 0 <= a < b < t.queue.len() implies (#[trigger] t.queue[a]).id != (
    #[trigger] t.queue[b]).id by {
        assert(t.queue[a] == s.queue[if a < i { a } else { a + 1 }]);
        assert(t.queue[b] == s.queue[if b < i { b } else { b + 1 }]);
    }
}

/// No step exceeds a limit: what runs stays within the limit on all requests, what waits within the queue,
/// and a request that starts to run stays within the limits of its child and its tool.
pub proof fn law_limits_are_never_exceeded(
    s: Scheduler,
    i: int,
    id: u64,
    place: Place,
    child: Seq<char>,
    child_limit: usize,
    tool: Seq<char>,
    tool_limit: usize,
)
    requires
        s.sound(),
    ensures
        s.queue.len() < s.queue_limit && s.next_id < u64::MAX ==> s.joined(
            child,
            child_limit,
            tool,
            tool_limit,
        ).sound(),
        s.next(i) ==> s.dispatched(i).sound() && child_load(
            s.dispatched(i).leases,
            s.queue[i].child,
        ) <= s.queue[i].child_limit && tool_load(s.dispatched(i).leases, s.queue[i].tool)
            <= s.queue[i].tool_limit,
        s.without(id).sound(),
        s.leases.count(place) > 0 ==> s.released(place).sound(),
        s.with_admission(true).sound(),
        s.with_admission(false).sound(),
{
    broadcast use vstd::multiset::group_multiset_axioms;

    if s.next(i) {
        lemma_removed_stays_sound(s, i);
        let place = (s.queue[i].child, s.queue[i].tool);
        lemma_loads_after_insert(s.leases, place, place.0);
        lemma_loads_after_insert(s.leases, place, place.1);
    }
    if s.waits(id) {
        let at = choose|at: int| 0 <= at < s.queue.len() && (#[trigger] s.queue[at]).id == id;
        lemma_without(s, id, at);
    } else {
        lemma_filter_keeps_all(s.queue, id);
    }
}

/// Capacity that was leased and given back is there again, with every load as before.
pub proof fn law_release_undoes_dispatch(s: Scheduler, i: int)
    requires
        s.next(i),
    ensures
        s.dispatched(i).leases.count((s.queue[i].child, s.queue[i].tool)) > 0,
        s.dispatched(i).released((s.queue[i].child, s.queue[i].tool)).leases == s.leases,
{
    broadcast use vstd::multiset::group_multiset_axioms;

    let place = (s.queue[i].child, s.queue[i].tool);
    assert(s.leases.insert(place).remove(place) =~= s.leases);
}

/// A request whose child or tool is at its limit holds up none behind it: where there is room for some waiting
/// request, exactly one is the next to run, the first of those.
pub proof fn law_blocked_requests_are_bypassed(s: Scheduler, k: int)
    requires
        0 <= k < s.queue.len(),
        s.eligible(s.queue[k]),
    ensures
        exists|i: int| #[trigger] s.next(i) && i <= k,
        forall|i: int, j: int| #[trigger] s.next(i) && #[trigger] s.next(j) ==> i == j,
    decreases k,
{
    if forall|j: int| 0 <= j < k ==> !s.eligible(#[trigger] s.queue[j]) {
        assert(s.next(k));
    } else {
        let j = choose|j: int| 0 <= j < k && s.eligible(#[trigger] s.queue[j]);
        law_blocked_requests_are_bypassed(s, j);
    }
    assert forall|i: int, j: int| #[trigger] s.next(i) && #[trigger] s.next(j) implies i == j by {
        if i < j {
            assert(!s.eligible(s.queue[i]));
        }
        if j < i {
            assert(!s.eligible(s.queue[j]));
        }
    }
}

/// A request runs at most once: when it starts to run it leaves the queue, which it never enters again.
pub proof fn law_requests_run_at_most_once(s: Scheduler, i: int)
    requires
        s.sound(),
        s.next(i),
    ensures
        s.waits(s.queue[i].id),
        !s.dispatched(i).waits(s.queue[i].id),
        s.queue[i].id < s.dispatched(i).next_id,
{
    let id = s.queue[i].id;
    let t = s.dispatched(i);
    if t.waits(id) {
        let at = choose|at: int| 0 <= at < t.queue.len() && (#[trigger] t.queue[at]).id == id;
        assert(t.queue[at] == s.queue[if at < i { at } else { at + 1 }]);
    }
}

/// A request that left the queue does not wait any more and never waits again, so that it never runs.
pub proof fn law_left_requests_never_run(
    s: Scheduler,
    id: u64,
    i: int,
    other: u64,
    place: Place,
    child: Seq<char>,
    child_limit: usize,
    tool: Seq<char>,
    tool_limit: usize,
)
    requires
        s.sound(),
        id < s.next_id,
    ensures
        !s.without(id).waits(id),
        !s.waits(id) ==> {
            &&& s.next_id < u64::MAX ==> !s.joined(child, child_limit, tool, tool_limit).waits(id)
                && id < s.joined(child, child_limit, tool, tool_limit).next_id
            &&& s.next(i) ==> s.queue[i].id != id && !s.dispatched(i).waits(id)
            &&& !s.without(other).waits(id)
            &&& !s.released(place).waits(id)
            &&& !s.with_admission(true).waits(id)
            &&& !s.with_admission(false).waits(id)
        },
{
    broadcast use Seq::lemma_filter_pred;

    let t = s.without(id);
    if t.waits(id) {
        let at = choose|at: int| 0 <= at < t.queue.len() && (#[trigger] t.queue[at]).id == id;
        assert(other_than(id)(t.queue[at]));
    }
    if !s.waits(id) {
        let u = s.joined(child, child_limit, tool, tool_limit);
        if s.next_id < u64::MAX && u.waits(id) {
            let at = choose|at: int| 0 <= at < u.queue.len() && (#[trigger] u.queue[at]).id == id;
            assert(at < s.queue.len() ==> s.queue[at] == u.queue[at]);
        }
        if s.next(i) {
            let d = s.dispatched(i);
            if d.waits(id) {
                let at = choose|at: int|
                    0 <= at < d.queue.len() && (#[trigger] d.queue[at]).id == id;
                assert(d.queue[at] == s.queue[if at < i { at } else { at + 1 }]);
            }
        }
        if s.without(other).waits(id) {
            let w = s.without(other);
            let at = choose|at: int| 0 <= at < w.queue.len() && (#[trigger] w.queue[at]).id == id;
            if s.waits(other) {
                let from = choose|from: int|
                    0 <= from < s.queue.len() && (#[trigger] s.queue[from]).id == other;
                lemma_without(s, other, from);
                assert(w.queue[at] == s.queue[if at < from { at } else { at + 1 }]);
            } else {
                lemma_filter_keeps_all(s.queue, other);
                assert(s.queue[at].id == id);
            }
        }
        let r = s.released(place);
        if r.waits(id) {
            let at = choose|at: int| 0 <= at < r.queue.len() && (#[trigger] r.queue[at]).id == id;
            assert(s.queue[at].id == id);
        }
        if s.with_admission(true).waits(id) {
            let q = s.with_admission(true).queue;
            let at = choose|at: int| 0 <= at < q.len() && (#[trigger] q[at]).id == id;
            assert(s.queue[at].id == id);
        }
        if s.with_admission(false).waits(id) {
            let q = s.with_admission(false).queue;
            let at = choose|at: int| 0 <= at < q.len() && (#[trigger] q[at]).id == id;
            assert(s.queue[at].id == id);
        }
    }
}

/// A move of a coordinator: a request joins the queue, runs, leaves the queue or gives its capacity back, or admission
/// is opened or closed.
pub enum Move {
    Join(Seq<char>, usize, Seq<char>, usize),
    Run(int),
    Leave(u64),
    Release(Place),
    Admission(bool),
}

/// The move can be made.
pub open spec fn can_move(s: Scheduler, m: Move) -> bool {
    match m {
        Move::Join(_, _, _, _) => s.open && s.queue.len() < s.queue_limit && s.next_id < u64::MAX,
        Move::Run(i) => s.open && s.next(i),
        Move::Leave(_) => true,
        Move::Release(place) => s.leases.count(place) > 0,
        Move::Admission(_) => true,
    }
}

pub open spec fn moved(s: Scheduler, m: Move) -> Scheduler {
    match m {
        Move::Join(child, child_limit, tool, tool_limit) => s.joined(
            child,
            child_limit,
            tool,
            tool_limit,
        ),
        Move::Run(i) => s.dispatched(i),
        Move::Leave(id) => s.without(id),
        Move::Release(place) => s.released(place),
        Move::Admission(open) => s.with_admission(open),
    }
}

/// The moves can be made one after the other, and lead from the one scheduler to the other.
pub open spec fn leads(from: Scheduler, moves: Seq<Move>, to: Scheduler) -> bool
    decreases moves.len(),
{
    if moves.len() == 0 {
        from == to
    } else {
        can_move(from, moves[0]) && leads(moved(from, moves[0]), moves.drop_first(), to)
    }
}

/// How many requests started to run, less those that gave their capacity back.
pub open spec fn balance(moves: Seq<Move>) -> int
    decreases moves.len(),
{
    if moves.len() == 0 {
        0
    } else {
        balance(moves.drop_first()) + match moves[0] {
            Move::Run(_) => 1int,
            Move::Release(_) => -1int,
            _ => 0int,
        }
    }
}

proof fn lemma_moves_keep_sound(s: Scheduler, m: Move)
    requires
        s.sound(),
        can_move(s, m),
    ensures
        moved(s, m).sound(),
{
    broadcast use vstd::multiset::group_multiset_axioms;

    match m {
        Move::Join(child, child_limit, tool, tool_limit) => {
            law_limits_are_never_exceeded(
                s,
                0,
                0,
                (child, tool),
                child,
                child_limit,
                tool,
                tool_limit,
            );
        },
        Move::Run(i) => {
            lemma_removed_stays_sound(s, i);
        },
        Move::Leave(id) => {
            let nowhere = Seq::<char>::empty();
            law_limits_are_never_exceeded(s, -1, id, (nowhere, nowhere), nowhere, 0, nowhere, 0);
        },
        Move::Release(_) => {},
        Move::Admission(_) => {},
    }
}

/// Whatever happens, the limits hold and no capacity leaks: what runs are the requests that started to run and have not
/// given their capacity back. Once all have, none runs.
pub proof fn law_no_capacity_leaks(s: Scheduler, moves: Seq<Move>, t: Scheduler)
    requires
        s.sound(),
        leads(s, moves, t),
    ensures
        t.sound(),
        t.global_limit == s.global_limit,
        t.queue_limit == s.queue_limit,
        t.leases.len() == s.leases.len() + balance(moves),
    decreases moves.len(),
{
    broadcast use vstd::multiset::group_multiset_axioms;

    if moves.len() > 0 {
        let next = moved(s, moves[0]);
        lemma_moves_keep_sound(s, moves[0]);
        law_no_capacity_leaks(next, moves.drop_first(), t);
    }
}

/// The numbers of the requests that the moves let run, one after the other.
pub open spec fn ran(s: Scheduler, moves: Seq<Move>) -> Seq<u64>
    decreases moves.len(),
{
    if moves.len() == 0 {
        Seq::empty()
    } else {
        let rest = ran(moved(s, moves[0]), moves.drop_first());
        match moves[0] {
            Move::Run(i) => seq![s.queue[i].id] + rest,
            _ => rest,
        }
    }
}

proof fn lemma_left_requests_stay_away(s: Scheduler, id: u64, m: Move)
    requires
        s.sound(),
        id < s.next_id,
        !s.waits(id),
        can_move(s, m),
    ensures
        moved(s, m).sound(),
        id < moved(s, m).next_id,
        !moved(s, m).waits(id),
        m matches Move::Run(i) ==> s.queue[i].id != id,
{
    lemma_moves_keep_sound(s, m);
    let nowhere = Seq::<char>::empty();
    match m {
        Move::Join(child, child_limit, tool, tool_limit) => {
            law_left_requests_never_run(
                s,
                id,
                -1,
                0,
                (child, tool),
                child,
                child_limit,
                tool,
                tool_limit,
            );
        },
        Move::Run(i) => {
            law_left_requests_never_run(s, id, i, 0, (nowhere, nowhere), nowhere, 0, nowhere, 0);
        },
        Move::Leave(other) => {
            law_left_requests_never_run(
                s,
                id,
                -1,
                other,
                (nowhere, nowhere),
                nowhere,
                0,
                nowhere,
                0,
            );
        },
        Move::Release(place) => {
            law_left_requests_never_run(s, id, -1, 0, place, nowhere, 0, nowhere, 0);
        },
        Move::Admission(_) => {
            law_left_requests_never_run(s, id, -1, 0, (nowhere, nowhere), nowhere, 0, nowhere, 0);
        },
    }
}

proof fn lemma_ran_is_away(s: Scheduler, id: u64, moves: Seq<Move>, t: Scheduler)
    requires
        s.sound(),
        id < s.next_id,
        !s.waits(id),
        leads(s, moves, t),
    ensures
        !t.waits(id),
        !ran(s, moves).contains(id),
    decreases moves.len(),
{
    if moves.len() > 0 {
        let next = moved(s, moves[0]);
        lemma_left_requests_stay_away(s, id, moves[0]);
        lemma_ran_is_away(next, id, moves.drop_first(), t);
        let rest = ran(next, moves.drop_first());
        if ran(s, moves).contains(id) {
            let k = choose|k: int| 0 <= k < ran(s, moves).len() && ran(s, moves)[k] == id;
            if moves[0] is Run {
                assert(k > 0);
                assert(rest[k - 1] == id);
            }
        }
    }
}

/// A request that was refused while it waited is neither waiting nor running any more: it left the queue, took no
/// capacity, and whatever happens afterwards it never waits and never runs again.
pub proof fn law_refused_requests_never_lease(
    s: Scheduler,
    id: u64,
    moves: Seq<Move>,
    t: Scheduler,
)
    requires
        s.sound(),
        id < s.next_id,
        leads(s.without(id), moves, t),
    ensures
        !s.without(id).waits(id),
        s.without(id).leases == s.leases,
        !t.waits(id),
        !ran(s.without(id), moves).contains(id),
{
    let nowhere = Seq::<char>::empty();
    law_left_requests_never_run(s, id, -1, 0, (nowhere, nowhere), nowhere, 0, nowhere, 0);
    law_limits_are_never_exceeded(s, -1, id, (nowhere, nowhere), nowhere, 0, nowhere, 0);
    lemma_ran_is_away(s.without(id), id, moves, t);
}

/// Whatever happens, no request runs twice.
pub proof fn law_no_request_runs_twice(s: Scheduler, moves: Seq<Move>, t: Scheduler)
    requires
        s.sound(),
        leads(s, moves, t),
    ensures
        ran(s, moves).no_duplicates(),
    decreases moves.len(),
{
    if moves.len() > 0 {
        let next = moved(s, moves[0]);
        lemma_moves_keep_sound(s, moves[0]);
        law_no_request_runs_twice(next, moves.drop_first(), t);
        if let Move::Run(i) = moves[0] {
            law_requests_run_at_most_once(s, i);
            lemma_ran_is_away(next, s.queue[i].id, moves.drop_first(), t);
            let all = ran(s, moves);
            let rest = ran(next, moves.drop_first());
            assert forall|a: int, b: int| 0 <= a < b < all.len() implies all[a] != all[b] by {
                assert(rest[b - 1] == all[b]);
                if a > 0 {
                    assert(rest[a - 1] == all[a]);
                } else {
                    assert(rest.contains(all[b]));
                }
            }
        }
    }
}

/// How many requests started to run at a place, less those that gave their capacity there back.
pub open spec fn balance_at(s: Scheduler, moves: Seq<Move>, place: Place) -> int
    decreases moves.len(),
{
    if moves.len() == 0 {
        0
    } else {
        balance_at(moved(s, moves[0]), moves.drop_first(), place) + match moves[0] {
            Move::Run(i) => if (s.queue[i].child, s.queue[i].tool) == place {
                1int
            } else {
                0int
            },
            Move::Release(other) => if other == place {
                -1int
            } else {
                0int
            },
            _ => 0int,
        }
    }
}

/// A request that runs counts until it gives its capacity back: at every place as many run as started to run there and
/// have not given their capacity back, and in all never more than the limit.
pub proof fn law_requests_count_until_they_give_back(
    s: Scheduler,
    moves: Seq<Move>,
    t: Scheduler,
    place: Place,
)
    requires
        s.sound(),
        leads(s, moves, t),
    ensures
        t.leases.count(place) == s.leases.count(place) + balance_at(s, moves, place),
        t.leases.len() <= s.global_limit,
    decreases moves.len(),
{
    broadcast use vstd::multiset::group_multiset_axioms;

    law_no_capacity_leaks(s, moves, t);
    if moves.len() > 0 {
        let next = moved(s, moves[0]);
        lemma_moves_keep_sound(s, moves[0]);
        law_requests_count_until_they_give_back(next, moves.drop_first(), t, place);
    }
}

proof fn lemma_removed_stays_sound(s: Scheduler, i: int)
    requires
        s.sound(),
        s.next(i),
    ensures
        s.dispatched(i).sound(),
{
    broadcast use vstd::multiset::group_multiset_axioms;

    let t = s.dispatched(i);
    assert forall|a: int| 0 <= a < t.queue.len() implies (#[trigger] t.queue[a]).id
        < t.next_id by {
        assert(t.queue[a] == s.queue[if a < i { a } else { a + 1 }]);
    }
    assert forall|a: int, b: int| 0 <= a < b < t.queue.len() implies (#[trigger] t.queue[a]).id != (
    #[trigger] t.queue[b]).id by {
        assert(t.queue[a] == s.queue[if a < i { a } else { a + 1 }]);
        assert(t.queue[b] == s.queue[if b < i { b } else { b + 1 }]);
    }
}

/// A request that is first in the queue runs wherever fewer requests run than may run in all, fewer of them in its child
/// than may run there, and fewer of them in its tool; and one that runs next finds that room, while each before it
/// finds one of the three taken up.
pub proof fn law_room_is_counted_in_running_requests(s: Scheduler, i: int)
    ensures
        0 < s.queue.len() && s.leases.len() < s.global_limit && s.leases.filter(
            |place: Place| place.0 == s.queue[0].child,
        ).len() < s.queue[0].child_limit && s.leases.filter(
            |place: Place| place.1 == s.queue[0].tool,
        ).len() < s.queue[0].tool_limit ==> s.next(0),
        s.next(i) <==> {
            &&& 0 <= i < s.queue.len()
            &&& s.leases.len() < s.global_limit
            &&& s.leases.filter(|place: Place| place.0 == s.queue[i].child).len()
                < s.queue[i].child_limit
            &&& s.leases.filter(|place: Place| place.1 == s.queue[i].tool).len()
                < s.queue[i].tool_limit
            &&& forall|j: int|
                0 <= j < i ==> s.leases.filter(
                    |place: Place| place.0 == (#[trigger] s.queue[j]).child,
                ).len() >= s.queue[j].child_limit || s.leases.filter(
                    |place: Place| place.1 == s.queue[j].tool,
                ).len() >= s.queue[j].tool_limit
        },
{
    assert forall|j: int| true implies #[trigger] s.eligible(s.queue[j]) == (s.leases.len()
        < s.global_limit && s.leases.filter(|place: Place| place.0 == s.queue[j].child).len()
        < s.queue[j].child_limit && s.leases.filter(
        |place: Place| place.1 == s.queue[j].tool,
    ).len() < s.queue[j].tool_limit) by {
        assert((|place: Place| place.0 == s.queue[j].child) =~= of_child(s.queue[j].child));
        assert((|place: Place| place.1 == s.queue[j].tool) =~= of_tool(s.queue[j].tool));
    }
    assert(s.eligible(s.queue[0]) || !s.eligible(s.queue[0]));
    if s.next(i) {
        assert(s.eligible(s.queue[i]));
        assert forall|j: int| 0 <= j < i implies s.leases.filter(
            |place: Place| place.0 == (#[trigger] s.queue[j]).child,
        ).len() >= s.queue[j].child_limit || s.leases.filter(
            |place: Place| place.1 == s.queue[j].tool,
        ).len() >= s.queue[j].tool_limit by {
            assert(!s.eligible(s.queue[j]));
        }
    }
    if ({
        &&& 0 <= i < s.queue.len()
        &&& s.leases.len() < s.global_limit
        &&& s.leases.filter(|place: Place| place.0 == s.queue[i].child).len()
            < s.queue[i].child_limit
        &&& s.leases.filter(|place: Place| place.1 == s.queue[i].tool).len()
            < s.queue[i].tool_limit
        &&& forall|j: int|
            0 <= j < i ==> s.leases.filter(
                |place: Place| place.0 == (#[trigger] s.queue[j]).child,
            ).len() >= s.queue[j].child_limit || s.leases.filter(
                |place: Place| place.1 == s.queue[j].tool,
            ).len() >= s.queue[j].tool_limit
    }) {
        assert(s.eligible(s.queue[i]));
        assert forall|j: int| 0 <= j < i implies !s.eligible(#[trigger] s.queue[j]) by {
            assert(s.queue[j] == s.queue[j]);
        }
    }
}

/// One request after the other joins and runs, up to `n`.
pub open spec fn all_run(child: Seq<char>, child_limit: usize, tool: Seq<char>, tool_limit: usize, n: nat) -> Seq<
    Move,
>
    decreases n,
{
    if n == 0 {
        Seq::empty()
    } else {
        seq![Move::Join(child, child_limit, tool, tool_limit), Move::Run(0)] + all_run(
            child,
            child_limit,
            tool,
            tool_limit,
            (n - 1) as nat,
        )
    }
}

/// So many requests run, all of them at one place.
spec fn runs_alone(s: Scheduler, place: Place, n: nat) -> bool {
    &&& s.open
    &&& s.queue.len() == 0
    &&& s.leases.len() == n
    &&& s.leases.count(place) == n
    &&& child_load(s.leases, place.0) == n
    &&& tool_load(s.leases, place.1) == n
}

proof fn lemma_all_run(
    s: Scheduler,
    child: Seq<char>,
    child_limit: usize,
    tool: Seq<char>,
    tool_limit: usize,
    m: nat,
    n: nat,
) -> (t: Scheduler)
    requires
        runs_alone(s, (child, tool), m),
        m + n <= s.global_limit,
        m + n <= child_limit,
        m + n <= tool_limit,
        s.queue_limit > 0,
        s.next_id + n <= u64::MAX,
    ensures
        leads(s, all_run(child, child_limit, tool, tool_limit, n), t),
        runs_alone(t, (child, tool), m + n),
    decreases n,
{
    broadcast use vstd::multiset::group_multiset_axioms;

    if n == 0 {
        s
    } else {
        let moves = all_run(child, child_limit, tool, tool_limit, n);
        let less = all_run(child, child_limit, tool, tool_limit, (n - 1) as nat);
        let first = s.joined(child, child_limit, tool, tool_limit);
        assert(moves[0] == Move::Join(child, child_limit, tool, tool_limit));
        assert(moves.drop_first()[0] == Move::Run(0));
        assert(moves.drop_first().drop_first() =~= less);
        assert(first.next(0));
        let second = first.dispatched(0);
        lemma_loads_after_insert(s.leases, (child, tool), child);
        lemma_loads_after_insert(s.leases, (child, tool), tool);
        assert(second.queue =~= Seq::<Waiting>::empty());
        let t = lemma_all_run(
            second,
            child,
            child_limit,
            tool,
            tool_limit,
            m + 1,
            (n - 1) as nat,
        );
        assert(leads(second, less, t));
        assert(leads(first, moves.drop_first(), t));
        assert(leads(s, moves, t));
        t
    }
}

/// Capacity can be used up: of one tool so many requests run at once as the least of the three limits allows.
pub proof fn law_capacity_can_be_used_up(
    global_limit: usize,
    queue_limit: usize,
    wait: nat,
    child: Seq<char>,
    child_limit: usize,
    tool: Seq<char>,
    tool_limit: usize,
    n: nat,
)
    requires
        n <= global_limit,
        n <= child_limit,
        n <= tool_limit,
        queue_limit > 0,
    ensures
        exists|moves: Seq<Move>, t: Scheduler| #[trigger]
            leads(Scheduler::initial(global_limit, queue_limit, wait), moves, t)
                && t.leases.count((child, tool)) == n,
{
    broadcast use vstd::multiset::group_multiset_axioms;

    let s = Scheduler::initial(global_limit, queue_limit, wait);
    lemma_no_load_when_idle(child);
    lemma_no_load_when_idle(tool);
    let t = lemma_all_run(s, child, child_limit, tool, tool_limit, 0, n);
    assert(leads(s, all_run(child, child_limit, tool, tool_limit, n), t));
}

/// A coordinator starts open and empty, with the limits that it was given.
pub proof fn law_coordinators_start_open_and_empty(
    global_limit: usize,
    queue_limit: usize,
    wait: nat,
)
    ensures
        ({
            let s = Scheduler::initial(global_limit, queue_limit, wait);
            &&& s.open
            &&& s.queue.len() == 0
            &&& s.leases.len() == 0
            &&& s.next_id == 0
            &&& s.global_limit == global_limit
            &&& s.queue_limit == queue_limit
            &&& s.wait == wait
            &&& s.sound()
        }),
{
    broadcast use vstd::multiset::group_multiset_axioms;

}

/// A request that joins stands last, under the number that was next, with the limits that it was given; nothing else
/// changes but that number.
pub proof fn law_requests_join_last(
    s: Scheduler,
    child: Seq<char>,
    child_limit: usize,
    tool: Seq<char>,
    tool_limit: usize,
)
    requires
        s.next_id < u64::MAX,
    ensures
        ({
            let t = s.joined(child, child_limit, tool, tool_limit);
            let last = t.queue[t.queue.len() - 1];
            &&& t.queue.len() == s.queue.len() + 1
            &&& forall|i: int| 0 <= i < s.queue.len() ==> #[trigger] t.queue[i] == s.queue[i]
            &&& last.id == s.next_id
            &&& last.child == child
            &&& last.child_limit == child_limit
            &&& last.tool == tool
            &&& last.tool_limit == tool_limit
            &&& t.next_id == s.next_id + 1
            &&& t.leases == s.leases
            &&& t.open == s.open
            &&& t.global_limit == s.global_limit
            &&& t.queue_limit == s.queue_limit
            &&& t.wait == s.wait
        }),
{
}

/// A request that starts to run leaves its place in the queue, where the others keep their order, and takes up one more
/// place in its child and its tool; nothing else changes.
pub proof fn law_running_takes_one_place(s: Scheduler, i: int, place: Place)
    requires
        0 <= i < s.queue.len(),
    ensures
        ({
            let t = s.dispatched(i);
            &&& t.queue.len() == s.queue.len() - 1
            &&& forall|j: int| 0 <= j < i ==> #[trigger] t.queue[j] == s.queue[j]
            &&& forall|j: int| i <= j < t.queue.len() ==> #[trigger] t.queue[j] == s.queue[j + 1]
            &&& t.leases.len() == s.leases.len() + 1
            &&& t.leases.count(place) == s.leases.count(place) + (if place.0 == s.queue[i].child
                && place.1 == s.queue[i].tool {
                1nat
            } else {
                0nat
            })
            &&& t.next_id == s.next_id
            &&& t.open == s.open
            &&& t.global_limit == s.global_limit
            &&& t.queue_limit == s.queue_limit
            &&& t.wait == s.wait
        }),
{
    broadcast use vstd::multiset::group_multiset_axioms;

}

/// Capacity that is given back is one place less at its child and tool; nothing else changes.
pub proof fn law_giving_back_frees_one_place(s: Scheduler, given: Place, place: Place)
    requires
        s.leases.count(given) > 0,
    ensures
        ({
            let t = s.released(given);
            &&& t.leases.len() == s.leases.len() - 1
            &&& t.leases.count(place) == s.leases.count(place) - (if place == given {
                1int
            } else {
                0int
            })
            &&& t.queue == s.queue
            &&& t.next_id == s.next_id
            &&& t.open == s.open
            &&& t.global_limit == s.global_limit
            &&& t.queue_limit == s.queue_limit
            &&& t.wait == s.wait
        }),
{
    broadcast use vstd::multiset::group_multiset_axioms;

}

/// A request that leaves takes only itself out of the queue: every other one stays, before and behind those that it
/// stood before and behind.
pub proof fn law_leaving_takes_out_one_request(s: Scheduler, id: u64, i: int)
    requires
        s.sound(),
    ensures
        0 <= i < s.queue.len() && s.queue[i].id == id ==> s.without(id).queue == s.queue.take(i)
            + s.queue.skip(i + 1),
        !s.waits(id) ==> s.without(id).queue == s.queue,
        s.without(id).leases == s.leases,
        s.without(id).next_id == s.next_id,
        s.without(id).open == s.open,
        s.without(id).global_limit == s.global_limit,
        s.without(id).queue_limit == s.queue_limit,
        s.without(id).wait == s.wait,
        s.with_admission(true).open && !s.with_admission(false).open,
        s.with_admission(true).queue == s.queue && s.with_admission(false).queue == s.queue,
        s.with_admission(true).leases == s.leases && s.with_admission(false).leases == s.leases,
        s.with_admission(true).next_id == s.next_id && s.with_admission(false).next_id == s.next_id,
{
    if 0 <= i < s.queue.len() && s.queue[i].id == id {
        lemma_without(s, id, i);
        assert(s.queue.remove(i) =~= s.queue.take(i) + s.queue.skip(i + 1));
    }
    if !s.waits(id) {
        assert forall|j: int| 0 <= j < s.queue.len() implies (#[trigger] s.queue[j]).id != id by {}
        lemma_filter_keeps_all(s.queue, id);
    }
}

} // verus!
