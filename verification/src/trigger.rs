use crate::chart::{Condition, Transition};
use crate::traits::{accepted_ids, descriptor_ids, Event, EventId, EventLabel};
use vstd::prelude::*;
use vstd::string::StringSliceAdditionalSpecFns;

verus! {

/// What a handle is driven with, as plain values: the ids of the descriptors that
/// accept the event, or none for the eventless tick; and the guards that the host
/// has found to be true.
pub struct Stimulus {
    pub event: Option<Seq<EventId>>,
    pub guards: Seq<u64>,
    /// For each state whether it completed in the step just before, within the
    /// same call. Empty for what the host drives a handle with.
    pub completed: Seq<bool>,
}

impl Stimulus {
    /// The eventless tick under the same guards.
    pub open spec fn quiet(self) -> Stimulus {
        Stimulus { event: None, guards: self.guards, completed: Seq::empty() }
    }

    /// The same, after a step in which the given states completed.
    pub open spec fn after(self, completed: Seq<bool>) -> Stimulus {
        Stimulus { completed, ..self }
    }

    /// The state completed in the step just before.
    pub open spec fn has_completed(self, x: int) -> bool {
        0 <= x < self.completed.len() && self.completed[x]
    }

    /// The eventless tick, with no guard holding.
    pub open spec fn tick() -> Stimulus {
        Stimulus { event: None, guards: Seq::empty(), completed: Seq::empty() }
    }

    /// The event with the given id and name, with no guard holding: it is accepted
    /// by a descriptor with that id, with the id of the name, or with the id of a
    /// dot-separated prefix of the name.
    pub open spec fn of_event(id: EventId, name: Seq<u8>) -> Stimulus {
        Stimulus {
            event: Some(descriptor_ids(id, name)),
            guards: Seq::empty(),
            completed: Seq::empty(),
        }
    }
}

/// What a handle is driven with: an event, given by the ids of the descriptors
/// that accept it, or the eventless tick; and the guards that the host has found
/// to be true.
#[derive(Clone, Debug)]
pub struct Trigger {
    /// The ids of the accepting descriptors; none for the eventless tick.
    pub event: Option<Vec<EventId>>,
    /// The guards that hold.
    pub guards: Vec<u64>,
}

impl View for Trigger {
    type V = Stimulus;

    open spec fn view(&self) -> Stimulus {
        Stimulus { event: ids_of(self.event), guards: self.guards@, completed: Seq::empty() }
    }
}

impl Trigger {
    /// The eventless tick, with no guard holding.
    pub fn tick() -> (t: Trigger)
        ensures
            t@ == Stimulus::tick(),
    {
        let t = Trigger { event: None, guards: Vec::new() };
        assert(t@.guards =~= Seq::empty());
        t
    }

    /// The event with the given id and name, with no guard holding.
    pub fn event(id: EventId, name: &str) -> (t: Trigger)
        ensures
            t@ == Stimulus::of_event(id, name.spec_bytes()),
    {
        let t = Trigger { event: Some(accepted_ids(id, name)), guards: Vec::new() };
        assert(t@.guards =~= Seq::empty());
        t
    }

    /// The trigger for a host's event: `event` of what its `id` and its `name`
    /// returned.
    pub fn of<E: Event>(event: &E) -> (t: Trigger)
        ensures
            exists|id: &EventId, label: &EventLabel| #[trigger]
                reads(event, id, label) && t@ == Stimulus::of_event(
                    *id,
                    vstd::utf8::encode_utf8(label@),
                ),
    {
        let id = event.id();
        let label = event.name();
        let t = Trigger::event(*id, label.0.as_str());
        assert(reads(event, id, label) && t@ == Stimulus::of_event(
            *id,
            vstd::utf8::encode_utf8(label@),
        ));
        t
    }

    /// The same trigger with one more guard holding.
    pub fn holding(self, guard: u64) -> (t: Trigger)
        ensures
            t@ == (Stimulus { guards: self@.guards.push(guard), ..self@ }),
    {
        let Trigger { event, guards } = self;
        let mut guards = guards;
        guards.push(guard);
        Trigger { event, guards }
    }

    /// The guard is among those that hold.
    pub fn grants(&self, guard: u64) -> (b: bool)
        ensures
            b == self@.guards.contains(guard),
    {
        occurs(&self.guards, guard)
    }
}

/// The id and the label are what the event's `id` and `name` returned.
pub open spec fn reads<E: Event>(event: &E, id: &EventId, label: &EventLabel) -> bool {
    call_ensures(E::id, (event,), id) && call_ensures(E::name, (event,), label)
}

/// What an optional event and the guards that hold come to, as plain values.
pub open spec fn pack(event: Option<Vec<EventId>>, guards: Vec<u64>, completed: Vec<bool>) -> Stimulus {
    Stimulus { event: ids_of(event), guards: guards@, completed: completed@ }
}

/// What the host drives a handle with: an optional event and the guards that
/// hold, with nothing completed before.
pub open spec fn host(event: Option<Vec<EventId>>, guards: Vec<u64>) -> Stimulus {
    Stimulus { event: ids_of(event), guards: guards@, completed: Seq::empty() }
}

/// The ids of an optional event, as plain values.
pub open spec fn ids_of(event: Option<Vec<EventId>>) -> Option<Seq<EventId>> {
    match event {
        Some(ids) => Some(ids@),
        None => None,
    }
}

/// Tells whether the guard is among the guards.
fn occurs(guards: &Vec<u64>, guard: u64) -> (b: bool)
    ensures
        b == guards@.contains(guard),
{
    let mut i: usize = 0;
    while i < guards.len()
        invariant
            i <= guards.len(),
            forall|j: int| 0 <= j < i ==> guards@[j] != guard,
        decreases guards.len() - i,
    {
        if guards[i] == guard {
            return true;
        }
        i = i + 1;
    }
    false
}

/// The transition's matcher accepts the trigger: an eventless transition accepts
/// the tick and nothing else; another accepts an event that one of its descriptors
/// accepts.
pub open spec fn accepts(t: Transition, trigger: Stimulus) -> bool {
    match trigger.event {
        None => t.event@.len() == 0,
        Some(ids) => exists|i: int, j: int|
            0 <= i < t.event@.len() && 0 <= j < ids.len() && #[trigger] t.event@[i]
                == #[trigger] ids[j],
    }
}

/// The condition holds for a handle that has spent `elapsed` in its configuration.
pub open spec fn holds(c: Option<Condition>, trigger: Stimulus, elapsed: u64) -> bool {
    match c {
        None => true,
        Some(c) => (c.delay matches Some(d) ==> elapsed >= d) && (c.guard matches Some(g)
            ==> trigger.guards.contains(g)) && (c.done matches Some(x)
            ==> trigger.has_completed(x.0 as int)),
    }
}

/// The transition is enabled: its matcher accepts the trigger and its condition
/// holds.
pub open spec fn enabled(t: Transition, trigger: Stimulus, elapsed: u64) -> bool {
    accepts(t, trigger) && holds(t.condition, trigger, elapsed)
}

/// Tells whether one of the ids occurs among the descriptors.
fn shares(descriptors: &Vec<EventId>, ids: &Vec<EventId>) -> (b: bool)
    ensures
        b == exists|i: int, j: int|
            0 <= i < descriptors@.len() && 0 <= j < ids@.len() && #[trigger] descriptors@[i]
                == #[trigger] ids@[j],
{
    let mut i: usize = 0;
    while i < descriptors.len()
        invariant
            i <= descriptors.len(),
            forall|a: int, b: int|
                0 <= a < i && 0 <= b < ids@.len() ==> #[trigger] descriptors@[a]
                    != #[trigger] ids@[b],
        decreases descriptors.len() - i,
    {
        let mut j: usize = 0;
        while j < ids.len()
            invariant
                i < descriptors.len(),
                j <= ids.len(),
                forall|a: int, b: int|
                    0 <= a < i && 0 <= b < ids@.len() ==> #[trigger] descriptors@[a]
                        != #[trigger] ids@[b],
                forall|b: int| 0 <= b < j ==> descriptors@[i as int] != #[trigger] ids@[b],
            decreases ids.len() - j,
        {
            if descriptors[i] == ids[j] {
                return true;
            }
            j = j + 1;
        }
        i = i + 1;
    }
    false
}

/// Tells whether the transition is enabled.
pub fn is_enabled(t: &Transition, trigger: &Trigger, elapsed: u64) -> (b: bool)
    ensures
        b == enabled(*t, trigger@, elapsed),
{
    let nothing: Vec<bool> = Vec::new();
    assert(pack(trigger.event, trigger.guards, nothing) == trigger@);
    enabled_under(t, &trigger.event, &trigger.guards, &nothing, elapsed)
}

/// Tells whether the transition is enabled under the event, or the tick, and the
/// guards.
pub(crate) fn enabled_under(
    t: &Transition,
    event: &Option<Vec<EventId>>,
    guards: &Vec<u64>,
    completed: &Vec<bool>,
    elapsed: u64,
) -> (b: bool)
    ensures
        b == enabled(*t, pack(*event, *guards, *completed), elapsed),
{
    let accepted = match event {
        None => t.event.len() == 0,
        Some(ids) => {
            assert(pack(*event, *guards, *completed).event == Some(ids@));
            let shared = shares(&t.event, ids);
            proof {
                let seen = pack(*event, *guards, *completed).event->0;
                assert(seen == ids@);
                if shared {
                    let (i, j) = choose|i: int, j: int|
                        0 <= i < t.event@.len() && 0 <= j < ids@.len() && #[trigger] t.event@[i]
                            == #[trigger] ids@[j];
                    assert(t.event@[i] == seen[j]);
                }
                if accepts(*t, pack(*event, *guards, *completed)) {
                    let (i, j) = choose|i: int, j: int|
                        0 <= i < t.event@.len() && 0 <= j < seen.len() && #[trigger] t.event@[i]
                            == #[trigger] seen[j];
                    assert(t.event@[i] == ids@[j]);
                }
            }
            shared
        },
    };
    if !accepted {
        return false;
    }
    match &t.condition {
        None => true,
        Some(c) => {
            let timely = match c.delay {
                Some(d) => elapsed >= d,
                None => true,
            };
            let granted = match c.guard {
                Some(g) => occurs(guards, g),
                None => true,
            };
            let finished = match c.done {
                Some(x) => x.0 < completed.len() && completed[x.0],
                None => true,
            };
            timely && granted && finished
        },
    }
}

} // verus!
